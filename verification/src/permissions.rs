//! A project's own rules on what tools may do.
//!
//! The file `.pigcode/permissions.toml` holds two lists of rules
//! `Tool(pattern)`. A call that a rule of `deny` meets is refused in every
//! mode; one that a rule of `allow` meets needs no approval.

use crate::chars::{
    ascii_lower, cat, chars_of, find, lowered, opt_text, position, same, str_eq, string_of, texts,
    trim, trimmed,
};
use crate::json::{
    lemma_arr, lemma_obj, lists_error_of_toml, member, parse_toml, says_all, says_members,
    toml_lists_error, toml_text, Json, JsonV,
};
use crate::patterns::{build_glob, glob_error, glob_hit, glob_matches};
use vstd::prelude::*;
use vstd::slice::slice_subrange;

verus! {

/// Where the rules stand, below the workspace.
pub const PERMISSIONS_FILE: &'static str = ".pigcode/permissions.toml";

/// A rule.
#[derive(Clone, Debug)]
pub struct Rule {
    /// The tool's name in lower case.
    tool: String,
    pattern: String,
    /// The rule as it is written.
    raw: String,
}

/// What a `Rule` says.
#[verifier::ext_equal]
pub struct RuleV {
    pub tool: Seq<char>,
    pub pattern: Seq<char>,
    pub raw: Seq<char>,
}

impl View for Rule {
    type V = RuleV;

    closed spec fn view(&self) -> RuleV {
        RuleV { tool: self.tool@, pattern: self.pattern@, raw: self.raw@ }
    }
}

/// What each of some rules says.
pub open spec fn rules_say(v: Seq<Rule>) -> Seq<RuleV> {
    v.map_values(|r: Rule| r@)
}

/// The rule that a text writes: a tool's name, and a pattern in brackets.
pub open spec fn rule_of(text: Seq<char>) -> Option<RuleV> {
    let raw = trim(text);
    match find(raw, '(') {
        None => None,
        Some(open) => if raw.last() != ')' {
            None
        } else {
            let tool = ascii_lower(trim(raw.take(open)));
            let pattern = trim(raw.subrange(open + 1, raw.len() - 1));
            if tool.len() == 0 || glob_error(pattern) is Some {
                None
            } else {
                Some(RuleV { tool, pattern, raw })
            }
        },
    }
}

/// Whether a rule meets a call of `tool` on `subject`.
pub open spec fn rule_meets(r: RuleV, tool: Seq<char>, subject: Seq<char>) -> bool {
    r.tool == ascii_lower(tool) && glob_error(r.pattern) is None && glob_hit(r.pattern, subject)
}

impl Rule {
    fn parse(text: &str) -> (r: Option<Rule>)
        ensures
            match r {
                Some(rule) => rule_of(text@) == Some(rule@),
                None => rule_of(text@) is None,
            },
    {
        let v = chars_of(text);
        let raw = trimmed(v.as_slice());
        let open = match position(raw, '(') {
            Some(k) => k,
            None => return None,
        };
        if raw[raw.len() - 1] != ')' {
            return None;
        }
        proof {
            assert(raw@[open as int] == '(');
            assert(open < raw.len() - 1);
            assert(raw@.take(open as int) =~= raw@.subrange(0, open as int));
        }
        let tool = lowered(trimmed(slice_subrange(raw, 0, open)));
        if tool.len() == 0 {
            return None;
        }
        let pattern = string_of(trimmed(slice_subrange(raw, open + 1, raw.len() - 1)));
        if build_glob(pattern.as_str()).is_err() {
            return None;
        }
        Some(Rule { tool: string_of(tool.as_slice()), pattern, raw: string_of(raw) })
    }

    fn meets(&self, tool: &[char], subject: &str) -> (r: bool)
        ensures
            r == rule_meets(self@, tool@, subject@),
    {
        let t = lowered(tool);
        if !same(chars_of(self.tool.as_str()).as_slice(), t.as_slice()) {
            return false;
        }
        match build_glob(self.pattern.as_str()) {
            Ok(p) => glob_matches(&p, subject),
            Err(_) => false,
        }
    }
}

/// The rules of a workspace.
#[derive(Clone, Debug)]
pub struct PermissionRules {
    allow: Vec<Rule>,
    deny: Vec<Rule>,
    /// How many rules were left out because they are not written as such.
    pub skipped: usize,
}

/// What `PermissionRules` say.
#[verifier::ext_equal]
pub struct RulesV {
    pub allow: Seq<RuleV>,
    pub deny: Seq<RuleV>,
    pub skipped: nat,
}

impl View for PermissionRules {
    type V = RulesV;

    closed spec fn view(&self) -> RulesV {
        RulesV {
            allow: rules_say(self.allow@),
            deny: rules_say(self.deny@),
            skipped: self.skipped as nat,
        }
    }
}

/// No rules.
pub open spec fn no_rules() -> RulesV {
    RulesV { allow: Seq::empty(), deny: Seq::empty(), skipped: 0 }
}

/// The rules among some texts, in order.
pub open spec fn rules_of(v: Seq<Seq<char>>) -> Seq<RuleV>
    decreases v.len(),
{
    if v.len() == 0 {
        Seq::empty()
    } else {
        match rule_of(v.last()) {
            Some(r) => rules_of(v.drop_last()).push(r),
            None => rules_of(v.drop_last()),
        }
    }
}

/// The texts of a list, where it is a list of texts.
pub open spec fn text_list(v: Seq<JsonV>) -> Option<Seq<Seq<char>>>
    decreases v.len(),
{
    if v.len() == 0 {
        Some(Seq::empty())
    } else {
        match (text_list(v.drop_last()), v.last()) {
            (Some(l), JsonV::Str(s)) => Some(l.push(s)),
            _ => None,
        }
    }
}

/// The list `key` of the rules file: empty where it is absent, `None` where it
/// is no list of texts.
pub open spec fn file_list(v: JsonV, key: Seq<char>) -> Option<Seq<Seq<char>>> {
    match member(v, key) {
        None => Some(Seq::empty()),
        Some(JsonV::Arr(a)) => text_list(a),
        Some(_other) => None,
    }
}

/// The rules that the two lists make.
pub open spec fn rules_from(allow: Seq<Seq<char>>, deny: Seq<Seq<char>>) -> RulesV {
    let left_out = allow.len() - rules_of(allow).len() + deny.len() - rules_of(deny).len();
    RulesV {
        allow: rules_of(allow),
        deny: rules_of(deny),
        skipped: if left_out <= usize::MAX {
            left_out as nat
        } else {
            usize::MAX as nat
        },
    }
}

/// Whether a member of the rules file other than the two lists is one too.
pub open spec fn is_other_list(m: (Seq<char>, JsonV)) -> bool {
    m.0 == "allow"@ || m.0 == "deny"@ || (m.1 matches JsonV::Arr(a) && text_list(a) is Some)
}

/// Whether nothing but the two lists can be wrong with a rules file.
pub open spec fn only_lists(v: JsonV) -> bool {
    match v {
        JsonV::Obj(m) => forall|i: int| 0 <= i < m.len() ==> is_other_list(#[trigger] m[i]),
        _ => false,
    }
}

/// What is wrong with a rules file one of whose lists is no list of texts.
/// `fault` is what is reported where the file is read as lists only: it holds
/// of the two lists unless another member of the file is no list either.
pub open spec fn shape_fault(v: JsonV, fault: Option<Seq<char>>) -> Seq<char> {
    match fault {
        Some(e) => if only_lists(v) {
            e
        } else {
            "allow 与 deny 须为字符串数组"@
        },
        None => "allow 与 deny 须为字符串数组"@,
    }
}

/// The rules that a file writes, or what is wrong with it.
pub open spec fn file_rules(text: Seq<char>) -> Result<RulesV, Seq<char>> {
    match toml_text(text) {
        Err(e) => Err("permissions.toml 解析失败: "@ + e),
        Ok(v) => match (file_list(v, "allow"@), file_list(v, "deny"@)) {
            (Some(a), Some(d)) => Ok(rules_from(a, d)),
            _ => Err("permissions.toml 解析失败: "@ + shape_fault(v, toml_lists_error(text))),
        },
    }
}

/// A subject with forward slashes only.
pub open spec fn slashed(s: Seq<char>) -> Seq<char> {
    s.map_values(
        |c: char|
            if c == '\\' {
                '/'
            } else {
                c
            },
    )
}

/// The first rule at or after `i` that meets a call.
pub open spec fn first_meeting(v: Seq<RuleV>, tool: Seq<char>, subject: Seq<char>, i: int) -> Option<
    RuleV,
>
    decreases v.len() - i,
{
    if i < 0 || i >= v.len() {
        None
    } else if rule_meets(v[i], tool, subject) {
        Some(v[i])
    } else {
        first_meeting(v, tool, subject, i + 1)
    }
}

/// The rule that refuses a call, as it is written.
pub open spec fn denied_by(r: RulesV, tool: Seq<char>, subject: Seq<char>) -> Option<Seq<char>> {
    match first_meeting(r.deny, tool, slashed(subject), 0) {
        Some(rule) => Some(rule.raw),
        None => None,
    }
}

/// Whether a rule allows a call.
pub open spec fn allowed_by(r: RulesV, tool: Seq<char>, subject: Seq<char>) -> bool {
    first_meeting(r.allow, tool, slashed(subject), 0) is Some
}

fn slash(s: &str) -> (r: String)
    ensures
        r@ == slashed(s@),
{
    let v = chars_of(s);
    let mut out: Vec<char> = Vec::new();
    for i in 0..v.len()
        invariant
            v@ == s@,
            out.len() == i,
            forall|k: int| 0 <= k < i ==> out@[k] == slashed(s@)[k],
    {
        if v[i] == '\\' {
            out.push('/');
        } else {
            out.push(v[i]);
        }
    }
    proof {
        assert(out@ =~= slashed(s@));
    }
    string_of(out.as_slice())
}

fn read_text_list(v: &[Json]) -> (r: Option<Vec<String>>)
    ensures
        match r {
            Some(l) => text_list(says_all(v@)) == Some(texts(l@)),
            None => text_list(says_all(v@)) is None,
        },
{
    let ghost all = says_all(v@);
    let mut out: Vec<String> = Vec::new();
    let mut bad = false;
    proof {
        assert(texts(out@) =~= Seq::<Seq<char>>::empty());
    }
    for i in 0..v.len()
        invariant
            all == says_all(v@),
            bad ==> text_list(all.take(i as int)) is None,
            !bad ==> text_list(all.take(i as int)) == Some(texts(out@)),
    {
        let ghost before = texts(out@);
        proof {
            assert(all.take(i as int + 1).drop_last() =~= all.take(i as int));
            assert(all.take(i as int + 1).last() == v@[i as int].says());
        }
        match &v[i] {
            Json::Str(s) => {
                out.push(s.clone());
                proof {
                    assert(texts(out@) =~= before.push(s@));
                }
            },
            _ => {
                bad = true;
            },
        }
    }
    proof {
        assert(all.take(v@.len() as int) =~= all);
    }
    if bad {
        None
    } else {
        Some(out)
    }
}

fn read_file_list(v: &Json, key: &str) -> (r: Option<Vec<String>>)
    ensures
        match r {
            Some(l) => file_list(v.says(), key@) == Some(texts(l@)),
            None => file_list(v.says(), key@) is None,
        },
{
    match v.get(key) {
        None => {
            let l: Vec<String> = Vec::new();
            proof {
                assert(texts(l@) =~= Seq::<Seq<char>>::empty());
            }
            Some(l)
        },
        Some(j) => {
            proof {
                lemma_arr(*j);
            }
            match j {
                Json::Arr(a) => read_text_list(a.as_slice()),
                _ => None,
            }
        },
    }
}

fn has_only_lists(v: &Json) -> (r: bool)
    ensures
        r == only_lists(v.says()),
{
    proof {
        lemma_obj(*v);
    }
    match v {
        Json::Obj(m) => {
            let ghost all = says_members(m@);
            for i in 0..m.len()
                invariant
                    all == says_members(m@),
                    v.says() == JsonV::Obj(all),
                    forall|k: int| 0 <= k < i ==> is_other_list(#[trigger] all[k]),
            {
                let name = m[i].0.as_str();
                let j = &m[i].1;
                proof {
                    assert(all[i as int] == (m@[i as int].0@, m@[i as int].1.says()));
                    lemma_arr(*j);
                }
                let list = match j {
                    Json::Arr(a) => read_text_list(a.as_slice()).is_some(),
                    _ => false,
                };
                if !(list || str_eq(name, "allow") || str_eq(name, "deny")) {
                    proof {
                        assert(all.len() == m@.len());
                        assert(!is_other_list(v.says()->Obj_0[i as int]));
                    }
                    return false;
                }
            }
            true
        },
        _ => false,
    }
}

/// Says what is wrong with a rules file one of whose lists is no list of
/// texts.
pub fn shape_error(v: &Json, fault: Option<String>) -> (r: String)
    ensures
        r@ == shape_fault(v.says(), opt_text(fault)),
{
    match fault {
        Some(e) => if has_only_lists(v) {
            e
        } else {
            "allow 与 deny 须为字符串数组".to_owned()
        },
        None => "allow 与 deny 须为字符串数组".to_owned(),
    }
}

fn read_rules(list: &[String]) -> (r: (Vec<Rule>, usize))
    ensures
        rules_say(r.0@) == rules_of(texts(list@)),
        r.1 == list@.len() - r.0@.len(),
{
    let ghost all = texts(list@);
    let mut out: Vec<Rule> = Vec::new();
    let mut skipped: usize = 0;
    proof {
        assert(rules_say(out@) =~= Seq::<RuleV>::empty());
    }
    for i in 0..list.len()
        invariant
            all == texts(list@),
            rules_say(out@) == rules_of(all.take(i as int)),
            skipped + out@.len() == i,
    {
        let ghost before = rules_say(out@);
        proof {
            assert(all.take(i as int + 1).drop_last() =~= all.take(i as int));
            assert(all.take(i as int + 1).last() == list@[i as int]@);
        }
        match Rule::parse(list[i].as_str()) {
            Some(rule) => {
                out.push(rule);
                proof {
                    assert(rules_say(out@) =~= before.push(rule@));
                }
            },
            None => {
                skipped = skipped + 1;
            },
        }
    }
    proof {
        assert(all.take(list@.len() as int) =~= all);
    }
    (out, skipped)
}

impl PermissionRules {
    /// No rules.
    pub fn empty() -> (r: Self)
        ensures
            r@ == no_rules(),
    {
        let r = PermissionRules { allow: Vec::new(), deny: Vec::new(), skipped: 0 };
        proof {
            assert(r@ =~= no_rules());
        }
        r
    }

    /// Reads the rules that a file writes. Rules that are not written as such
    /// are left out and counted.
    pub fn parse(text: &str) -> (r: Result<Self, String>)
        ensures
            match r {
                Ok(rules) => file_rules(text@) == Ok::<RulesV, Seq<char>>(rules@),
                Err(e) => file_rules(text@) == Err::<RulesV, Seq<char>>(e@),
            },
    {
        let v = match parse_toml(text) {
            Ok(v) => v,
            Err(e) => return Err(cat("permissions.toml 解析失败: ", e.as_str())),
        };
        match (read_file_list(&v, "allow"), read_file_list(&v, "deny")) {
            (Some(a), Some(d)) => {
                proof {
                    assert(texts(a@).len() == a@.len());
                    assert(texts(d@).len() == d@.len());
                }
                let (allow, s1) = read_rules(a.as_slice());
                let (deny, s2) = read_rules(d.as_slice());
                proof {
                    assert(rules_say(allow@).len() == allow@.len());
                    assert(rules_say(deny@).len() == deny@.len());
                }
                let r = PermissionRules { allow, deny, skipped: s1.saturating_add(s2) };
                proof {
                    assert(r@ =~= rules_from(texts(a@), texts(d@)));
                }
                Ok(r)
            },
            _ => {
                let e = shape_error(&v, lists_error_of_toml(text));
                Err(cat("permissions.toml 解析失败: ", e.as_str()))
            },
        }
    }

    /// The rule that refuses a call, as it is written.
    pub fn deny_hit(&self, tool: &str, subject: &str) -> (r: Option<String>)
        ensures
            crate::chars::opt_text(r) == denied_by(self@, tool@, subject@),
    {
        let s = slash(subject);
        let t = chars_of(tool);
        let ghost all = self@.deny;
        for i in 0..self.deny.len()
            invariant
                all == rules_say(self.deny@),
                all == self@.deny,
                t@ == tool@,
                s@ == slashed(subject@),
                first_meeting(all, tool@, s@, 0) == first_meeting(all, tool@, s@, i as int),
        {
            proof {
                assert(all[i as int] == self.deny@[i as int]@);
            }
            if self.deny[i].meets(t.as_slice(), s.as_str()) {
                return Some(self.deny[i].raw.clone());
            }
        }
        None
    }

    /// Whether a rule allows a call.
    pub fn allow_hit(&self, tool: &str, subject: &str) -> (r: bool)
        ensures
            r == allowed_by(self@, tool@, subject@),
    {
        let s = slash(subject);
        let t = chars_of(tool);
        let ghost all = self@.allow;
        for i in 0..self.allow.len()
            invariant
                all == rules_say(self.allow@),
                all == self@.allow,
                t@ == tool@,
                s@ == slashed(subject@),
                first_meeting(all, tool@, s@, 0) == first_meeting(all, tool@, s@, i as int),
        {
            proof {
                assert(all[i as int] == self.allow@[i as int]@);
            }
            if self.allow[i].meets(t.as_slice(), s.as_str()) {
                return true;
            }
        }
        false
    }

    /// Whether there is no rule.
    pub fn is_empty(&self) -> (r: bool)
        ensures
            r == (self@.allow.len() == 0 && self@.deny.len() == 0),
    {
        self.allow.len() == 0 && self.deny.len() == 0
    }
}

/// A rule is written as a tool's name and a pattern in brackets, and is read as
/// exactly these two, the name in lower case.
pub proof fn law_rule_is_read(tool: Seq<char>, pattern: Seq<char>)
    requires
        tool.len() > 0,
        !tool.contains('('),
        !crate::chars::is_white(tool[0]),
        !crate::chars::is_white(tool.last()),
        trim(pattern) == pattern,
        glob_error(pattern) is None,
        ascii_lower(tool).len() > 0,
    ensures
        rule_of(tool + seq!['('] + pattern + seq![')']) == Some(
            RuleV {
                tool: ascii_lower(tool),
                pattern,
                raw: tool + seq!['('] + pattern + seq![')'],
            },
        ),
{
    let s = tool + seq!['('] + pattern + seq![')'];
    assert(s[0] == tool[0]);
    assert(s.last() == ')');
    assert(!crate::chars::is_white(')'));
    assert(crate::chars::trim_start(s) == s);
    assert(crate::chars::trim_end(s) == s);
    crate::chars::lemma_find_from(s, '(', 0);
    let k = tool.len() as int;
    assert(s[k] == '(');
    assert forall|j: int| 0 <= j < k implies s[j] != '(' by {
        assert(s[j] == tool[j]);
        assert(tool.contains(tool[j]));
    }
    assert(find(s, '(') == Some(k));
    assert(s.take(k) =~= tool);
    assert(trim(tool) == tool);
    assert(trim(s) == s);
    assert(s.subrange(k + 1, s.len() - 1) =~= pattern);
}

/// The rules of a list are those of its texts that write one, all of them and
/// in their order.
pub proof fn law_rules_are_all_read(v: Seq<Seq<char>>)
    ensures
        rules_of(v) == v.filter(|t: Seq<char>| rule_of(t) is Some).map_values(
            |t: Seq<char>| rule_of(t)->0,
        ),
    decreases v.len(),
{
    let good = |t: Seq<char>| rule_of(t) is Some;
    let read = |t: Seq<char>| rule_of(t)->0;
    reveal(Seq::filter);
    if v.len() == 0 {
        assert(v.filter(good).map_values(read) =~= Seq::<RuleV>::empty());
    } else {
        let front = v.drop_last();
        law_rules_are_all_read(front);
        if good(v.last()) {
            assert(v.filter(good).map_values(read) =~= front.filter(good).map_values(read).push(
                read(v.last()),
            ));
        }
    }
}

/// What a rules file lists under `allow` allows, what it lists under `deny`
/// denies, and what writes no rule is counted.
pub proof fn law_file_lists_are_kept_apart(
    text: Seq<char>,
    v: JsonV,
    allow: Seq<Seq<char>>,
    deny: Seq<Seq<char>>,
)
    requires
        toml_text(text) == Ok::<JsonV, Seq<char>>(v),
        member(v, "allow"@) == Some(JsonV::Arr(allow.map_values(|t: Seq<char>| JsonV::Str(t)))),
        member(v, "deny"@) == Some(JsonV::Arr(deny.map_values(|t: Seq<char>| JsonV::Str(t)))),
        allow.len() + deny.len() <= usize::MAX,
    ensures
        file_rules(text) matches Ok(r) && r.allow == rules_of(allow) && r.deny == rules_of(deny)
            && r.skipped + r.allow.len() + r.deny.len() == allow.len() + deny.len(),
{
    lemma_text_list(allow);
    lemma_text_list(deny);
    lemma_rules_shorter(allow);
    lemma_rules_shorter(deny);
}

proof fn lemma_rules_shorter(v: Seq<Seq<char>>)
    ensures
        rules_of(v).len() <= v.len(),
    decreases v.len(),
{
    if v.len() > 0 {
        lemma_rules_shorter(v.drop_last());
    }
}

proof fn lemma_text_list(v: Seq<Seq<char>>)
    ensures
        text_list(v.map_values(|t: Seq<char>| JsonV::Str(t))) == Some(v),
    decreases v.len(),
{
    let f = |t: Seq<char>| JsonV::Str(t);
    if v.len() == 0 {
        assert(v =~= Seq::<Seq<char>>::empty());
    } else {
        lemma_text_list(v.drop_last());
        assert(v.map_values(f).drop_last() =~= v.drop_last().map_values(f));
        assert(v.map_values(f).last() == JsonV::Str(v.last()));
        assert(v.drop_last().push(v.last()) =~= v);
    }
}

/// A call is denied exactly where one of the denying rules has its tool's name
/// and a pattern that its subject matches, written with forward slashes; the
/// rule that is named is the first such one. It is allowed in the same way by
/// the allowing rules.
pub proof fn law_rules_decide(r: RulesV, tool: Seq<char>, subject: Seq<char>)
    ensures
        ({
            let s = subject.map_values(
                |c: char|
                    if c == '\\' {
                        '/'
                    } else {
                        c
                    },
            );
            let meets = |x: RuleV|
                x.tool == ascii_lower(tool) && glob_error(x.pattern) is None && glob_hit(
                    x.pattern,
                    s,
                );
            &&& denied_by(r, tool, subject) is Some <==> exists|i: int|
                0 <= i < r.deny.len() && meets(#[trigger] r.deny[i])
            &&& denied_by(r, tool, subject) matches Some(raw) ==> exists|i: int|
                0 <= i < r.deny.len() && meets(#[trigger] r.deny[i]) && raw == r.deny[i].raw
                    && forall|j: int| 0 <= j < i ==> !meets(#[trigger] r.deny[j])
            &&& allowed_by(r, tool, subject) <==> exists|i: int|
                0 <= i < r.allow.len() && meets(#[trigger] r.allow[i])
        }),
{
    let s = subject.map_values(
        |c: char|
            if c == '\\' {
                '/'
            } else {
                c
            },
    );
    assert(slashed(subject) =~= s);
    lemma_first_meeting(r.deny, tool, s, 0);
    lemma_first_meeting(r.allow, tool, s, 0);
}

proof fn lemma_first_meeting(v: Seq<RuleV>, tool: Seq<char>, s: Seq<char>, from: int)
    requires
        0 <= from <= v.len(),
    ensures
        match first_meeting(v, tool, s, from) {
            Some(x) => exists|i: int|
                from <= i < v.len() && #[trigger] v[i] == x && rule_meets(x, tool, s) && forall|
                    j: int,
                | from <= j < i ==> !rule_meets(#[trigger] v[j], tool, s),
            None => forall|j: int| from <= j < v.len() ==> !rule_meets(#[trigger] v[j], tool, s),
        },
    decreases v.len() - from,
{
    if from < v.len() && !rule_meets(v[from], tool, s) {
        lemma_first_meeting(v, tool, s, from + 1);
    } else if from < v.len() {
        assert(v[from] == v[from]);
    }
}

} // verus!
