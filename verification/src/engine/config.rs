//! How strong the engine plays, which rules it follows, and where its files are.

use vstd::prelude::*;
use crate::text::{self, chars_of, same_text, string_of, trim};

verus! {

// ---- difficulty ----

/// How strong the engine plays: how many visits it may spend on a move.
#[derive(Clone, Copy, PartialEq, Eq, Structural, Debug)]
pub enum Difficulty {
    Beginner,
    Easy,
    Medium,
    Strong,
    Max,
}

impl Difficulty {
    /// The visits for a move.
    pub open spec fn visits_spec(self) -> u32 {
        match self {
            Difficulty::Beginner => 30,
            Difficulty::Easy => 100,
            Difficulty::Medium => 300,
            Difficulty::Strong => 800,
            Difficulty::Max => 2000,
        }
    }

    /// The name shown to the user.
    pub open spec fn name_spec(self) -> Seq<char> {
        match self {
            Difficulty::Beginner => "入门"@,
            Difficulty::Easy => "简单"@,
            Difficulty::Medium => "中等"@,
            Difficulty::Strong => "较强"@,
            Difficulty::Max => "最强"@,
        }
    }

    /// The name in the settings.
    pub open spec fn key_spec(self) -> Seq<char> {
        match self {
            Difficulty::Beginner => "Beginner"@,
            Difficulty::Easy => "Easy"@,
            Difficulty::Medium => "Medium"@,
            Difficulty::Strong => "Strong"@,
            Difficulty::Max => "Max"@,
        }
    }

    /// All of them, weakest first.
    pub fn all() -> (r: Vec<Difficulty>)
        ensures
            r@ == seq![
                Difficulty::Beginner,
                Difficulty::Easy,
                Difficulty::Medium,
                Difficulty::Strong,
                Difficulty::Max,
            ],
    {
        let r = vec![
            Difficulty::Beginner,
            Difficulty::Easy,
            Difficulty::Medium,
            Difficulty::Strong,
            Difficulty::Max,
        ];
        assert(r@ =~= seq![
            Difficulty::Beginner,
            Difficulty::Easy,
            Difficulty::Medium,
            Difficulty::Strong,
            Difficulty::Max,
        ]);
        r
    }

    /// The visits for a move.
    pub fn visits(self) -> (r: u32)
        ensures
            r == self.visits_spec(),
    {
        match self {
            Difficulty::Beginner => 30,
            Difficulty::Easy => 100,
            Difficulty::Medium => 300,
            Difficulty::Strong => 800,
            Difficulty::Max => 2000,
        }
    }

    /// The name shown to the user.
    pub fn name(self) -> (r: &'static str)
        ensures
            r@ == self.name_spec(),
    {
        match self {
            Difficulty::Beginner => "入门",
            Difficulty::Easy => "简单",
            Difficulty::Medium => "中等",
            Difficulty::Strong => "较强",
            Difficulty::Max => "最强",
        }
    }

    /// The name in the settings.
    pub fn key(self) -> (r: &'static str)
        ensures
            r@ == self.key_spec(),
    {
        match self {
            Difficulty::Beginner => "Beginner",
            Difficulty::Easy => "Easy",
            Difficulty::Medium => "Medium",
            Difficulty::Strong => "Strong",
            Difficulty::Max => "Max",
        }
    }

    /// How many seconds a move takes at 60 visits a second, rounded up.
    pub fn estimate_secs(self) -> (r: u32)
        ensures
            r == (self.visits_spec() + 59) / 60,
    {
        (self.visits() + 59) / 60
    }
}

impl Default for Difficulty {
    fn default() -> (r: Self)
        ensures
            r == Difficulty::Medium,
    {
        Difficulty::Medium
    }
}

// ---- rules ----

/// The rules of a game, as the engine knows them.
#[derive(Clone, Copy, PartialEq, Eq, Structural, Debug)]
pub enum Rules {
    Chinese,
    Japanese,
    Korean,
    Aga,
    NewZealand,
    TrompTaylor,
}

/// The text without hyphens, underscores and spaces.
pub open spec fn squeezed(s: Seq<char>) -> Seq<char>
    decreases s.len(),
{
    if s.len() == 0 {
        Seq::empty()
    } else if s.last() == '-' || s.last() == '_' || s.last() == ' ' {
        squeezed(s.drop_last())
    } else {
        squeezed(s.drop_last()).push(s.last())
    }
}

/// The rules that a normal form names.
pub open spec fn rules_named(norm: Seq<char>) -> Option<Rules> {
    if norm == "chinese"@ {
        Some(Rules::Chinese)
    } else if norm == "japanese"@ {
        Some(Rules::Japanese)
    } else if norm == "korean"@ {
        Some(Rules::Korean)
    } else if norm == "aga"@ {
        Some(Rules::Aga)
    } else if norm == "newzealand"@ {
        Some(Rules::NewZealand)
    } else if norm == "tromptaylor"@ {
        Some(Rules::TrompTaylor)
    } else {
        None
    }
}

/// The rules that a name means: case, hyphens, underscores and spaces do not count.
pub open spec fn rules_of(s: Seq<char>) -> Option<Rules> {
    rules_named(squeezed(text::lower_text(text::trimmed(s))))
}

impl Rules {
    /// The rules without a setting and without a record.
    pub const DEFAULT: &'static str = "chinese";

    /// The name that the engine knows.
    pub open spec fn wire_spec(self) -> Seq<char> {
        match self {
            Rules::Chinese => "chinese"@,
            Rules::Japanese => "japanese"@,
            Rules::Korean => "korean"@,
            Rules::Aga => "aga"@,
            Rules::NewZealand => "new-zealand"@,
            Rules::TrompTaylor => "tromp-taylor"@,
        }
    }

    /// The name shown to the user.
    pub open spec fn name_spec(self) -> Seq<char> {
        match self {
            Rules::Chinese => "中国"@,
            Rules::Japanese => "日本"@,
            Rules::Korean => "韩国"@,
            Rules::Aga => "AGA"@,
            Rules::NewZealand => "新西兰"@,
            Rules::TrompTaylor => "Tromp-Taylor"@,
        }
    }

    /// The name in the settings.
    pub open spec fn key_spec(self) -> Seq<char> {
        match self {
            Rules::Chinese => "chinese"@,
            Rules::Japanese => "japanese"@,
            Rules::Korean => "korean"@,
            Rules::Aga => "aga"@,
            Rules::NewZealand => "newzealand"@,
            Rules::TrompTaylor => "tromptaylor"@,
        }
    }

    /// All of them.
    pub fn all() -> (r: Vec<Rules>)
        ensures
            r@ == seq![
                Rules::Chinese,
                Rules::Japanese,
                Rules::Korean,
                Rules::Aga,
                Rules::NewZealand,
                Rules::TrompTaylor,
            ],
    {
        let r = vec![
            Rules::Chinese,
            Rules::Japanese,
            Rules::Korean,
            Rules::Aga,
            Rules::NewZealand,
            Rules::TrompTaylor,
        ];
        assert(r@ =~= seq![
            Rules::Chinese,
            Rules::Japanese,
            Rules::Korean,
            Rules::Aga,
            Rules::NewZealand,
            Rules::TrompTaylor,
        ]);
        r
    }

    /// The name that the engine knows.
    pub fn wire(self) -> (r: &'static str)
        ensures
            r@ == self.wire_spec(),
    {
        match self {
            Rules::Chinese => "chinese",
            Rules::Japanese => "japanese",
            Rules::Korean => "korean",
            Rules::Aga => "aga",
            Rules::NewZealand => "new-zealand",
            Rules::TrompTaylor => "tromp-taylor",
        }
    }

    /// The name shown to the user.
    pub fn name(self) -> (r: &'static str)
        ensures
            r@ == self.name_spec(),
    {
        match self {
            Rules::Chinese => "中国",
            Rules::Japanese => "日本",
            Rules::Korean => "韩国",
            Rules::Aga => "AGA",
            Rules::NewZealand => "新西兰",
            Rules::TrompTaylor => "Tromp-Taylor",
        }
    }

    /// The name in the settings.
    pub fn key(self) -> (r: &'static str)
        ensures
            r@ == self.key_spec(),
    {
        match self {
            Rules::Chinese => "chinese",
            Rules::Japanese => "japanese",
            Rules::Korean => "korean",
            Rules::Aga => "aga",
            Rules::NewZealand => "newzealand",
            Rules::TrompTaylor => "tromptaylor",
        }
    }

    /// The name shown for a name that the engine knows; another name is shown as it is.
    pub fn rules_name(wire: &str) -> (r: String)
        ensures
            r@ == match rules_of(wire@) {
                Some(x) => x.name_spec(),
                None => wire@,
            },
    {
        match Rules::from_wire(wire) {
            Some(x) => x.name().to_owned(),
            None => wire.to_owned(),
        }
    }

    /// The rules that a name means.
    pub fn from_wire(s: &str) -> (r: Option<Rules>)
        ensures
            r == rules_of(s@),
    {
        let t = text::lower_chars(&trim(&chars_of(s)));
        let mut norm = String::new();
        let mut i: usize = 0;
        assert(t@.take(0) =~= Seq::empty());
        assert(norm@ =~= squeezed(t@.take(0)));
        while i < t.len()
            invariant
                i <= t@.len(),
                norm@ == squeezed(t@.take(i as int)),
            decreases t@.len() - i,
        {
            let c = t[i];
            if c != '-' && c != '_' && c != ' ' {
                norm.push(c);
            }
            i += 1;
            assert(t@.take(i as int).drop_last() =~= t@.take(i - 1));
        }
        assert(t@.take(i as int) =~= t@);
        let n = norm.as_str();
        if same_text(n, "chinese") {
            Some(Rules::Chinese)
        } else if same_text(n, "japanese") {
            Some(Rules::Japanese)
        } else if same_text(n, "korean") {
            Some(Rules::Korean)
        } else if same_text(n, "aga") {
            Some(Rules::Aga)
        } else if same_text(n, "newzealand") {
            Some(Rules::NewZealand)
        } else if same_text(n, "tromptaylor") {
            Some(Rules::TrompTaylor)
        } else {
            None
        }
    }
}

/// What `str::to_lowercase` makes of a text.
pub uninterp spec fn lowercased(s: Seq<char>) -> Seq<char>;

/// `str::to_lowercase`: the text in lower case, by Unicode. The contract names the result, and says
/// that of an ASCII text only the letters A to Z change, each to its small letter.
#[verifier::external_body]
fn lowercase(s: &str) -> (r: String)
    ensures
        r@ == lowercased(s@),
        text::is_ascii(s@) ==> r@ == text::lower_text(s@),
{
    s.to_lowercase()
}

/// The rules that a text in lower case speaks of.
pub open spec fn spoken_rules(s: Seq<char>) -> Option<Rules> {
    if text::holds(s, "japan"@) || text::holds(s, "日本"@) || text::holds(s, "jpn"@)
        || text::holds(s, "日韩"@) {
        Some(Rules::Japanese)
    } else if text::holds(s, "korea"@) || text::holds(s, "韩国"@) || text::holds(s, "kor"@) {
        Some(Rules::Korean)
    } else if text::holds(s, "china"@) || text::holds(s, "中国"@) || text::holds(s, "数子"@)
        || text::holds(s, "chn"@) {
        Some(Rules::Chinese)
    } else if text::holds(s, "aga"@) {
        Some(Rules::Aga)
    } else if text::holds(s, "new zealand"@) || text::holds(s, "new-zealand"@) || text::holds(
        s,
        "新西兰"@,
    ) || text::holds(s, "newzealand"@) {
        Some(Rules::NewZealand)
    } else if text::holds(s, "tromp"@) || text::holds(s, "tt"@) {
        Some(Rules::TrompTaylor)
    } else {
        rules_of(s)
    }
}

/// The rules that a text in lower case speaks of: country names and common short forms count, and
/// the names themselves.
pub fn rules_in(lower: &str) -> (r: Option<Rules>)
    ensures
        r == spoken_rules(lower@),
{
    let s = chars_of(lower);
    if text::has(&s, "japan") || text::has(&s, "日本") || text::has(&s, "jpn") || text::has(
        &s,
        "日韩",
    ) {
        Some(Rules::Japanese)
    } else if text::has(&s, "korea") || text::has(&s, "韩国") || text::has(&s, "kor") {
        Some(Rules::Korean)
    } else if text::has(&s, "china") || text::has(&s, "中国") || text::has(&s, "数子")
        || text::has(&s, "chn") {
        Some(Rules::Chinese)
    } else if text::has(&s, "aga") {
        Some(Rules::Aga)
    } else if text::has(&s, "new zealand") || text::has(&s, "new-zealand") || text::has(
        &s,
        "新西兰",
    ) || text::has(&s, "newzealand") {
        Some(Rules::NewZealand)
    } else if text::has(&s, "tromp") || text::has(&s, "tt") {
        Some(Rules::TrompTaylor)
    } else {
        Rules::from_wire(lower)
    }
}

/// The rules to analyse by, and what the user should know of them.
#[derive(Clone, Debug)]
pub struct RulesResolution {
    /// A name that the engine knows.
    pub rules: String,
    /// Set where the record's rules are not known.
    pub notice: Option<String>,
}

/// The model of [`RulesResolution`].
#[verifier::ext_equal]
pub struct ResolutionView {
    pub rules: Seq<char>,
    pub notice: Option<Seq<char>>,
}

impl View for RulesResolution {
    type V = ResolutionView;

    open spec fn view(&self) -> ResolutionView {
        ResolutionView {
            rules: self.rules@,
            notice: match self.notice {
                Some(s) => Some(s@),
                None => None,
            },
        }
    }
}

/// The text of an optional string slice.
pub open spec fn opt_str(s: Option<&str>) -> Option<Seq<char>> {
    match s {
        Some(x) => Some(x@),
        None => None,
    }
}

/// The rules that a setting means, where there is one.
pub open spec fn set_rules(cfg: Option<Seq<char>>) -> Option<Rules> {
    match cfg {
        Some(c) => if text::trimmed(c).len() > 0 {
            rules_of(text::trimmed(c))
        } else {
            None
        },
        None => None,
    }
}

/// What is known of the record's rules: nothing, or what they are found to be.
pub open spec fn recorded_rules(sgf: Option<Seq<char>>, found: Option<Rules>) -> ResolutionView {
    match sgf {
        Some(raw) if text::trimmed(raw).len() > 0 => match found {
            Some(x) => ResolutionView { rules: x.wire_spec(), notice: None },
            None => ResolutionView {
                rules: Rules::DEFAULT@,
                notice: Some("未识别的规则串「"@ + text::trimmed(raw) + "」，已按 中国规则 分析。"@),
            },
        },
        _ => ResolutionView { rules: Rules::DEFAULT@, notice: None },
    }
}

/// The rules to analyse by: those of the setting, else those that the record speaks of, else the
/// default; `found` is what the record's text in lower case speaks of.
pub open spec fn resolved(cfg: Option<Seq<char>>, sgf: Option<Seq<char>>, found: Option<Rules>) -> ResolutionView {
    match set_rules(cfg) {
        Some(x) => ResolutionView { rules: x.wire_spec(), notice: None },
        None => recorded_rules(sgf, found),
    }
}

/// The rules to analyse by, where the record's text in lower case speaks of `found`.
pub fn rules_from(cfg_rule: Option<&str>, sgf_rule: Option<&str>, found: Option<Rules>) -> (r: RulesResolution)
    ensures
        r@ == resolved(opt_str(cfg_rule), opt_str(sgf_rule), found),
{
    if let Some(c) = cfg_rule {
        let t = trim(&chars_of(c));
        if t.len() > 0 {
            if let Some(x) = Rules::from_wire(string_of(&t).as_str()) {
                return RulesResolution { rules: x.wire().to_owned(), notice: None };
            }
        }
    }
    if let Some(raw) = sgf_rule {
        let t = trim(&chars_of(raw));
        if t.len() > 0 {
            return match found {
                Some(x) => RulesResolution { rules: x.wire().to_owned(), notice: None },
                None => {
                    let mut out = "未识别的规则串「".to_owned();
                    out.append(string_of(&t).as_str());
                    out.append("」，已按 中国规则 分析。");
                    RulesResolution { rules: Rules::DEFAULT.to_owned(), notice: Some(out) }
                },
            };
        }
    }
    RulesResolution { rules: Rules::DEFAULT.to_owned(), notice: None }
}

/// The rules to analyse by: those of the setting, else those that the record speaks of, else the
/// default. The record's own text never goes to the engine.
pub fn resolve_rules(cfg_rule: Option<&str>, sgf_rule: Option<&str>) -> (r: RulesResolution)
    ensures
        r@ == resolved(
            opt_str(cfg_rule),
            opt_str(sgf_rule),
            match sgf_rule {
                Some(raw) => spoken_rules(lowercased(text::trimmed(raw@))),
                None => None,
            },
        ),
        sgf_rule matches Some(raw) ==> text::is_ascii(text::trimmed(raw@)) ==> r@ == resolved(
            opt_str(cfg_rule),
            opt_str(sgf_rule),
            spoken_rules(text::lower_text(text::trimmed(raw@))),
        ),
{
    let found = match sgf_rule {
        Some(raw) => {
            let t = trim(&chars_of(raw));
            rules_in(lowercase(string_of(&t).as_str()).as_str())
        },
        None => None,
    };
    rules_from(cfg_rule, sgf_rule, found)
}

} // verus!
