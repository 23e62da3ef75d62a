//! System file dialogs through the XDG desktop portal, over D-Bus.
//!
//! [`wire`] and [`marshal`] read and write D-Bus messages, [`dbus`] holds the rules of the
//! connection, and [`filechooser`] those of the file dialog. Sockets, threads and the clock are
//! the caller's.

use vstd::prelude::*;

pub mod dbus;
pub mod filechooser;
pub mod laws;
pub mod marshal;
pub mod meaning;
pub mod wire;

use crate::text::{self, push_decimal};

verus! {

/// What can go wrong with the portal.
#[derive(Debug)]
pub enum PortalError {
    /// There is no session bus to talk to.
    NoDBus(String),
    /// There is a session bus, but no file dialog service on it.
    NoPortal(String),
    /// The other side refused a call.
    CallFailed { name: String, message: String },
    /// The user did nothing for this many seconds.
    Timeout(u64),
    /// The other side sent something that makes no sense.
    Protocol(String),
    /// The socket failed.
    Io(String),
}

/// The model of [`PortalError`].
pub enum PortalErrorView {
    NoDBus(Seq<char>),
    NoPortal(Seq<char>),
    CallFailed { name: Seq<char>, message: Seq<char> },
    Timeout(u64),
    Protocol(Seq<char>),
    Io(Seq<char>),
}

impl View for PortalError {
    type V = PortalErrorView;

    open spec fn view(&self) -> PortalErrorView {
        match *self {
            PortalError::NoDBus(m) => PortalErrorView::NoDBus(m@),
            PortalError::NoPortal(m) => PortalErrorView::NoPortal(m@),
            PortalError::CallFailed { name, message } => PortalErrorView::CallFailed {
                name: name@,
                message: message@,
            },
            PortalError::Timeout(s) => PortalErrorView::Timeout(s),
            PortalError::Protocol(m) => PortalErrorView::Protocol(m@),
            PortalError::Io(m) => PortalErrorView::Io(m@),
        }
    }
}

impl PortalErrorView {
    /// The message shown to the user.
    pub open spec fn message(self) -> Seq<char> {
        match self {
            PortalErrorView::NoDBus(m) => "D-Bus 会话总线不可用："@ + m,
            PortalErrorView::NoPortal(m) => "portal 文件对话框服务不可用："@ + m,
            PortalErrorView::CallFailed { name, message } => "portal 调用失败（"@ + name + "）："@
                + message,
            PortalErrorView::Timeout(s) => "等待用户选择超时（"@ + text::decimal(s as nat)
                + "s），已尽力关闭对话框"@,
            PortalErrorView::Protocol(m) => "portal 协议异常："@ + m,
            PortalErrorView::Io(m) => "与 D-Bus 的通信失败："@ + m,
        }
    }
}

impl PortalError {
    /// The message shown to the user.
    pub fn message(&self) -> (r: String)
        ensures
            r@ == self@.message(),
    {
        let mut out = String::new();
        match self {
            PortalError::NoDBus(m) => {
                out.append("D-Bus 会话总线不可用：");
                out.append(m.as_str());
            },
            PortalError::NoPortal(m) => {
                out.append("portal 文件对话框服务不可用：");
                out.append(m.as_str());
            },
            PortalError::CallFailed { name, message } => {
                out.append("portal 调用失败（");
                out.append(name.as_str());
                out.append("）：");
                out.append(message.as_str());
            },
            PortalError::Timeout(s) => {
                out.append("等待用户选择超时（");
                push_decimal(&mut out, *s);
                out.append("s），已尽力关闭对话框");
            },
            PortalError::Protocol(m) => {
                out.append("portal 协议异常：");
                out.append(m.as_str());
            },
            PortalError::Io(m) => {
                out.append("与 D-Bus 的通信失败：");
                out.append(m.as_str());
            },
        }
        assert(out@ =~= self@.message());
        out
    }
}

/// A protocol error with the given text.
pub(crate) fn protocol(text: &str) -> (r: PortalError)
    ensures
        r@ == PortalErrorView::Protocol(text@),
{
    PortalError::Protocol(text.to_owned())
}

/// How a file dialog ended.
#[derive(Debug)]
pub enum PortalEvent {
    /// The user chose this file.
    Picked(String),
    /// The user closed the dialog.
    Cancelled,
    /// The dialog failed.
    Failed(PortalError),
}

/// The event that the outcome of a dialog is reported as.
pub fn event_of(outcome: Result<Option<String>, PortalError>) -> (r: PortalEvent)
    ensures
        r == match outcome {
            Ok(Some(path)) => PortalEvent::Picked(path),
            Ok(None) => PortalEvent::Cancelled,
            Err(e) => PortalEvent::Failed(e),
        },
{
    match outcome {
        Ok(Some(path)) => PortalEvent::Picked(path),
        Ok(None) => PortalEvent::Cancelled,
        Err(e) => PortalEvent::Failed(e),
    }
}

} // verus!
