//! Attribute key translation: class aliasing, control-flow pseudo-attribute
//! lookup, camelCase to kebab-case conversion, and event-key resolution.

use vstd::prelude::*;

use crate::chars::{is_ascii_upper, lower, lower_seq, char_is_ascii_upper, lower_str, push_char_from, str_eq, str_starts_with, str_ends_with};

verus! {

/// The control-flow pseudo-attribute asking for a conditional.
pub open spec fn spec_if_key() -> Seq<char> {
    "if"@
}

/// The control-flow pseudo-attribute asking for the negative branch.
pub open spec fn spec_else_key() -> Seq<char> {
    "else"@
}

/// The control-flow pseudo-attribute asking for a repetition.
pub open spec fn spec_for_key() -> Seq<char> {
    "for"@
}

/// The control-flow pseudo-attribute naming the per-item key field.
pub open spec fn spec_for_key_key() -> Seq<char> {
    "for-key"@
}

/// The reserved per-item stable-id field every loop item carries.
pub open spec fn spec_sid() -> Seq<char> {
    "sid"@
}

/// Runtime form of [`spec_if_key`].
pub fn if_key() -> (r: &'static str)
    ensures
        r@ == spec_if_key(),
{
    "if"
}

/// Runtime form of [`spec_else_key`].
pub fn else_key() -> (r: &'static str)
    ensures
        r@ == spec_else_key(),
{
    "else"
}

/// Runtime form of [`spec_for_key`].
pub fn for_key() -> (r: &'static str)
    ensures
        r@ == spec_for_key(),
{
    "for"
}

/// Runtime form of [`spec_for_key_key`].
pub fn for_key_key() -> (r: &'static str)
    ensures
        r@ == spec_for_key_key(),
{
    "for-key"
}

/// Runtime form of [`spec_sid`].
pub fn sid_value() -> (r: &'static str)
    ensures
        r@ == spec_sid(),
{
    "sid"
}

/// What one character contributes to the kebab-case form: a hyphen before an
/// ASCII capital that is not the first character, then the lower-case letter.
pub open spec fn kebab_insert(c: char, i: int) -> Seq<char> {
    if i != 0 && is_ascii_upper(c) {
        seq!['-', lower(c)]
    } else {
        seq![lower(c)]
    }
}

pub open spec fn kebab_rec(s: Seq<char>, i: int) -> Seq<char>
    decreases s.len() - i,
{
    if i < 0 || i >= s.len() {
        Seq::empty()
    } else {
        kebab_insert(s[i], i) + kebab_rec(s, i + 1)
    }
}

/// The kebab-case form of a camelCase key.
pub open spec fn spec_to_kebab_case(s: Seq<char>) -> Seq<char> {
    kebab_rec(s, 0)
}

/// Converts a camelCase key to kebab-case: a hyphen is inserted before every
/// ASCII capital letter that is not the first character, and every letter is
/// lower-cased.
pub fn to_kebab_case(val: &str) -> (res: String)
    ensures
        res@ == spec_to_kebab_case(val@),
{
    let n = val.unicode_len();
    let mut res = String::new();
    let mut i: usize = 0;
    while i < n
        invariant
            n == val@.len(),
            i <= n,
            res@ + kebab_rec(val@, i as int) == spec_to_kebab_case(val@),
        decreases n - i,
    {
        let c = val.get_char(i);
        if i != 0 && char_is_ascii_upper(c) {
            proof {
                reveal_strlit("-");
            }
            res.append("-");
        }
        if char_is_ascii_upper(c) {
            res.append(lower_str(c));
        } else {
            push_char_from(&mut res, val, i);
            proof {
                assert(seq![lower(c)] =~= seq![c]);
            }
        }
        proof {
            assert(res@ + kebab_rec(val@, i as int + 1) =~= spec_to_kebab_case(val@));
        }
        i = i + 1;
    }
    res
}


/// The adapter from control-flow pseudo-attributes to the attribute names of
/// the target template dialect; a missing entry is a configuration error.
pub struct Adapter {
    pub if_attr: Option<String>,
    pub else_attr: Option<String>,
    pub for_attr: Option<String>,
    pub for_key_attr: Option<String>,
}

/// Ghost mirror of [`Adapter`].
pub struct AdapterV {
    pub if_attr: Option<Seq<char>>,
    pub else_attr: Option<Seq<char>>,
    pub for_attr: Option<Seq<char>>,
    pub for_key_attr: Option<Seq<char>>,
}

impl View for Adapter {
    type V = AdapterV;

    open spec fn view(&self) -> AdapterV {
        AdapterV {
            if_attr: match self.if_attr {
                Some(s) => Some(s@),
                None => None,
            },
            else_attr: match self.else_attr {
                Some(s) => Some(s@),
                None => None,
            },
            for_attr: match self.for_attr {
                Some(s) => Some(s@),
                None => None,
            },
            for_key_attr: match self.for_key_attr {
                Some(s) => Some(s@),
                None => None,
            },
        }
    }
}

/// A fatal configuration error: the named control-flow keyword has no
/// attribute configured in the target template dialect.
pub enum ConfigError {
    MissingControlFlow(String),
}

/// What [`convert_jsx_attr_key`] returns: the translated key, or the
/// control-flow keyword whose adapter entry is missing.
pub open spec fn spec_convert_jsx_attr_key(key: Seq<char>, a: AdapterV) -> Result<
    Seq<char>,
    Seq<char>,
> {
    if key == "className"@ {
        Ok("class"@)
    } else if key == spec_if_key() {
        match a.if_attr {
            Some(v) => Ok(v),
            None => Err(spec_if_key()),
        }
    } else if key == spec_else_key() {
        match a.else_attr {
            Some(v) => Ok(v),
            None => Err(spec_else_key()),
        }
    } else if key == spec_for_key() {
        match a.for_attr {
            Some(v) => Ok(v),
            None => Err(spec_for_key()),
        }
    } else if key == spec_for_key_key() {
        match a.for_key_attr {
            Some(v) => Ok(v),
            None => Err(spec_for_key_key()),
        }
    } else {
        Ok(spec_to_kebab_case(key))
    }
}

/// Translates one attribute key: `className` becomes `class`, a control-flow
/// pseudo-attribute is looked up in the adapter (and a missing entry is the
/// fatal configuration error naming that keyword), anything else is converted
/// to kebab-case.
pub fn convert_jsx_attr_key(jsx_key: &str, adapter: &Adapter) -> (r: Result<String, ConfigError>)
    ensures
        match r {
            Ok(s) => spec_convert_jsx_attr_key(jsx_key@, adapter@) == Ok::<Seq<char>, Seq<char>>(
                s@,
            ),
            Err(ConfigError::MissingControlFlow(k)) => spec_convert_jsx_attr_key(
                jsx_key@,
                adapter@,
            ) == Err::<Seq<char>, Seq<char>>(k@),
        },
{
    if str_eq(jsx_key, "className") {
        proof {
            reveal_strlit("className");
            reveal_strlit("class");
        }
        return Ok("class".to_owned());
    }
    if str_eq(jsx_key, if_key()) {
        return match &adapter.if_attr {
            Some(v) => Ok(v.clone()),
            None => Err(ConfigError::MissingControlFlow(if_key().to_owned())),
        };
    }
    if str_eq(jsx_key, else_key()) {
        return match &adapter.else_attr {
            Some(v) => Ok(v.clone()),
            None => Err(ConfigError::MissingControlFlow(else_key().to_owned())),
        };
    }
    if str_eq(jsx_key, for_key()) {
        return match &adapter.for_attr {
            Some(v) => Ok(v.clone()),
            None => Err(ConfigError::MissingControlFlow(for_key().to_owned())),
        };
    }
    if str_eq(jsx_key, for_key_key()) {
        return match &adapter.for_key_attr {
            Some(v) => Ok(v.clone()),
            None => Err(ConfigError::MissingControlFlow(for_key_key().to_owned())),
        };
    }
    Ok(to_kebab_case(jsx_key))
}

/// An event attribute starts with `on` followed by an ASCII capital letter.
pub open spec fn spec_is_event_attr(s: Seq<char>) -> bool {
    s.len() >= 3 && s[0] == 'o' && s[1] == 'n' && is_ascii_upper(s[2])
}

/// Whether the key names an event handler: `on` followed by a capital letter.
pub fn check_is_event_attr(val: &str) -> (r: bool)
    ensures
        r == spec_is_event_attr(val@),
{
    let n = val.unicode_len();
    if n < 3 {
        return false;
    }
    val.get_char(0) == 'o' && val.get_char(1) == 'n' && char_is_ascii_upper(val.get_char(2))
}

/// The canonical event name of an event attribute: the remainder after `on`,
/// lower-cased, with `click` unified to `tap`.
pub open spec fn spec_event_name(s: Seq<char>) -> Seq<char> {
    let base = lower_seq(s.skip(2));
    if base == "click"@ {
        "tap"@
    } else {
        base
    }
}

/// What [`identify_jsx_event_key`] returns, for every key and platform.
pub open spec fn spec_identify_event_key(s: Seq<char>, platform: Seq<char>) -> Option<Seq<char>> {
    if "Worklet"@.is_suffix_of(s) {
        let stem = s.take(s.len() - 7);
        if "on"@.is_prefix_of(stem) {
            Some("worklet:"@ + lower_seq(stem))
        } else {
            Some("worklet:"@ + spec_to_kebab_case(stem))
        }
    } else if spec_is_event_attr(s) {
        let ev = spec_event_name(s);
        if platform == "ALIPAY"@ {
            if ev == "tap"@ {
                Some("onTap"@)
            } else {
                Some(s)
            }
        } else {
            Some("bind"@ + ev)
        }
    } else {
        None
    }
}

/// Lower-cases a string character by character (ASCII capitals only).
fn to_lower_string(s: &str) -> (r: String)
    ensures
        r@ == lower_seq(s@),
{
    let n = s.unicode_len();
    let mut r = String::new();
    let mut i: usize = 0;
    while i < n
        invariant
            n == s@.len(),
            i <= n,
            r@ =~= lower_seq(s@).take(i as int),
        decreases n - i,
    {
        let c = s.get_char(i);
        if char_is_ascii_upper(c) {
            r.append(lower_str(c));
        } else {
            push_char_from(&mut r, s, i);
        }
        proof {
            assert(r@ =~= lower_seq(s@).take(i as int + 1));
        }
        i = i + 1;
    }
    proof {
        assert(lower_seq(s@).take(n as int) =~= lower_seq(s@));
    }
    r
}

/// Classifies and renames an event-handler key; `None` means the key is no
/// event attribute and is left untouched. A key ending in `Worklet` becomes a
/// `worklet:` binding (handlers keep their spelling lower-cased, callbacks go
/// to kebab-case); otherwise an `on`-prefixed key becomes the platform's
/// binding: the touch-first platform keeps `onTap` and original spellings,
/// every other platform binds `bind` + event name.
pub fn identify_jsx_event_key(val: &str, platform: &str) -> (r: Option<String>)
    ensures
        match r {
            Some(s) => spec_identify_event_key(val@, platform@) == Some(s@),
            None => spec_identify_event_key(val@, platform@) is None,
        },
{
    if str_ends_with(val, "Worklet") {
        proof {
            reveal_strlit("Worklet");
        }
        let n = val.unicode_len();
        let stem = val.substring_char(0, n - 7);
        proof {
            assert(stem@ == val@.take(n - 7));
        }
        let mut out = String::new();
        out.append("worklet:");
        if str_starts_with(stem, "on") {
            let lowered = to_lower_string(stem);
            out.append(lowered.as_str());
        } else {
            let kebab = to_kebab_case(stem);
            out.append(kebab.as_str());
        }
        return Some(out);
    }
    if check_is_event_attr(val) {
        let n = val.unicode_len();
        let rest = val.substring_char(2, n);
        let ev0 = to_lower_string(rest);
        proof {
            assert(rest@ == val@.skip(2));
        }
        let ev: String = if str_eq(ev0.as_str(), "click") {
            "tap".to_owned()
        } else {
            ev0
        };
        proof {
            assert(ev@ == spec_event_name(val@));
        }
        if str_eq(platform, "ALIPAY") {
            if str_eq(ev.as_str(), "tap") {
                return Some("onTap".to_owned());
            }
            return Some(val.to_owned());
        }
        let mut out = String::new();
        out.append("bind");
        out.append(ev.as_str());
        return Some(out);
    }
    None
}


/// How often a character occurs.
pub open spec fn count_char(s: Seq<char>, c: char) -> int
    decreases s,
{
    if s.len() == 0 {
        0
    } else {
        (if s[0] == c {
            1int
        } else {
            0int
        }) + count_char(s.drop_first(), c)
    }
}

proof fn lemma_count_char_add(a: Seq<char>, b: Seq<char>, c: char)
    ensures
        count_char(a + b, c) == count_char(a, c) + count_char(b, c),
    decreases a.len(),
{
    if a.len() == 0 {
        assert(a + b =~= b);
    } else {
        lemma_count_char_add(a.drop_first(), b, c);
        assert((a + b).drop_first() =~= a.drop_first() + b);
        assert((a + b)[0] == a[0]);
    }
}

/// The internal ASCII capitals of a key, counted from position `i` on.
pub open spec fn count_internal_upper(s: Seq<char>, i: int) -> int
    decreases s.len() - i,
{
    if i < 0 || i >= s.len() {
        0
    } else {
        (if i != 0 && is_ascii_upper(s[i]) {
            1int
        } else {
            0int
        }) + count_internal_upper(s, i + 1)
    }
}

/// An ASCII letter or digit.
pub open spec fn is_ascii_alnum(c: char) -> bool {
    let u = c as u32;
    (48 <= u && u <= 57) || (65 <= u && u <= 90) || (97 <= u && u <= 122)
}

/// A camelCase key: ASCII letters and digits, not starting with a capital,
/// and never two capitals in a row.
pub open spec fn is_camel_case(s: Seq<char>) -> bool {
    &&& forall|i: int| 0 <= i < s.len() ==> is_ascii_alnum(#[trigger] s[i])
    &&& (s.len() > 0 ==> !is_ascii_upper(s[0]))
    &&& forall|i: int|
        0 < i < s.len() ==> !(is_ascii_upper(#[trigger] s[i]) && is_ascii_upper(s[i - 1]))
}

proof fn lemma_kebab_counts(s: Seq<char>, i: int)
    requires
        forall|k: int| 0 <= k < s.len() ==> is_ascii_alnum(#[trigger] s[k]),
        0 <= i,
    ensures
        count_char(kebab_rec(s, i), '-') == count_internal_upper(s, i),
        forall|j: int|
            0 <= j < kebab_rec(s, i).len() ==> !is_ascii_upper(#[trigger] kebab_rec(s, i)[j]),
    decreases s.len() - i,
{
    if i < s.len() {
        lemma_kebab_counts(s, i + 1);
        lemma_count_char_add(kebab_insert(s[i], i), kebab_rec(s, i + 1), '-');
        assert(count_char(kebab_insert(s[i], i), '-') == (if i != 0 && is_ascii_upper(s[i]) {
            1int
        } else {
            0int
        })) by {
            assert(is_ascii_alnum(s[i]));
            assert(lower(s[i]) != '-');
            assert(count_char(Seq::<char>::empty(), '-') == 0);
            assert(seq![lower(s[i])].drop_first() =~= Seq::<char>::empty());
            assert(count_char(seq![lower(s[i])], '-') == 0);
            if i != 0 && is_ascii_upper(s[i]) {
                assert(kebab_insert(s[i], i) == seq!['-', lower(s[i])]);
                assert(seq!['-', lower(s[i])].drop_first() =~= seq![lower(s[i])]);
                assert(count_char(seq!['-', lower(s[i])], '-') == 1);
            } else {
                assert(kebab_insert(s[i], i) == seq![lower(s[i])]);
            }
        }
        assert forall|j: int| 0 <= j < kebab_rec(s, i).len() implies !is_ascii_upper(
            #[trigger] kebab_rec(s, i)[j],
        ) by {
            let ins = kebab_insert(s[i], i);
            if j < ins.len() {
                assert(kebab_rec(s, i)[j] == ins[j]);
                assert(!is_ascii_upper(lower(s[i])));
                assert(!is_ascii_upper('-'));
            } else {
                assert(kebab_rec(s, i)[j] == kebab_rec(s, i + 1)[j - ins.len()]);
            }
        }
    }
}

/// Law: for a camelCase key with no consecutive capitals, the kebab-case
/// form holds exactly one hyphen per internal capital letter of the key, and
/// no capital letters at all.
pub proof fn lemma_kebab_case_camel(s: Seq<char>)
    requires
        is_camel_case(s),
    ensures
        count_char(spec_to_kebab_case(s), '-') == count_internal_upper(s, 0),
        forall|j: int|
            0 <= j < spec_to_kebab_case(s).len() ==> !is_ascii_upper(
                #[trigger] spec_to_kebab_case(s)[j],
            ),
{
    lemma_kebab_counts(s, 0);
}

} // verus!
