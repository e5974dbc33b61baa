//! When the guards around elections may be retired: after enough fault-injection
//! runs in a row without a disturbed term.

use vstd::prelude::*;

use super::phase::{BootstrapError, BootstrapPhase};
use crate::controller::raft_dir::{join_path, joined};
use crate::parse::{chars_of, is_white_space, parse_digits};
use crate::text::append_decimal;

verus! {

/// Where the summary of the last window lies below a workspace.
pub fn manifest_path(workspace: &str) -> (path: String)
    ensures
        path@ == joined(
            joined(joined(workspace@, "specs"@), "in-process"@),
            "sprint-04-jepsen-window.json"@,
        ),
{
    let specs = join_path(workspace, "specs");
    let in_process = join_path(specs.as_str(), "in-process");
    join_path(in_process.as_str(), "sprint-04-jepsen-window.json")
}

/// What the runs of a window showed.
#[derive(Clone, Debug, PartialEq, Eq)]
pub struct JepsenWindowSummary {
    /// Runs in the window.
    pub runs: u64,
    /// Term jumps over all runs.
    pub storm_term_jumps_total: u64,
    /// Did the partitioned node advance its term?
    pub runaway_term_repro_advanced: bool,
}

impl Default for JepsenWindowSummary {
    /// No runs.
    fn default() -> (s: Self)
        ensures
            s.runs == 0,
            s.storm_term_jumps_total == 0,
            !s.runaway_term_repro_advanced,
    {
        JepsenWindowSummary {
            runs: 0,
            storm_term_jumps_total: 0,
            runaway_term_repro_advanced: false,
        }
    }
}

/// Fewest runs that count: one a day for two weeks.
pub const MIN_RUNS: u64 = 14;

impl JepsenWindowSummary {
    /// Enough runs, and none disturbed?
    pub open spec fn spec_is_clean(self) -> bool {
        self.runs >= MIN_RUNS && self.storm_term_jumps_total == 0
            && !self.runaway_term_repro_advanced
    }

    /// Enough runs, and none disturbed?
    pub fn is_clean(&self) -> (b: bool)
        ensures
            b == self.spec_is_clean(),
    {
        self.runs >= MIN_RUNS && self.storm_term_jumps_total == 0
            && !self.runaway_term_repro_advanced
    }
}

/// Why a window does not suffice; the first reason that applies.
pub open spec fn objection(s: JepsenWindowSummary) -> Option<Seq<char>> {
    if s.runs < MIN_RUNS {
        Some(
            "bolt-on retirement gate: only "@ + crate::text::decimal_text(s.runs as nat)
                + " Jepsen run(s) in window, need "@ + crate::text::decimal_text(MIN_RUNS as nat),
        )
    } else if s.storm_term_jumps_total > 0 {
        Some(
            "bolt-on retirement gate: ELECTION_STORM_TERM_JUMPS_TOTAL="@
                + crate::text::decimal_text(s.storm_term_jumps_total as nat) + " (must be 0)"@,
        )
    } else if s.runaway_term_repro_advanced {
        Some("bolt-on retirement gate: runaway-term repro advanced terms (must be 0)"@)
    } else {
        None
    }
}

/// May the guards be retired?
pub fn prerequisite_satisfied(summary: &JepsenWindowSummary) -> (r: Result<(), BootstrapError>)
    ensures
        match r {
            Ok(()) => objection(*summary) is None,
            Err(e) => objection(*summary) is Some && e.says(
                BootstrapPhase::DrainQueue,
                objection(*summary)->0,
            ),
        },
{
    if summary.runs < MIN_RUNS {
        let mut m = "bolt-on retirement gate: only ".to_owned();
        append_decimal(&mut m, summary.runs);
        m.append(" Jepsen run(s) in window, need ");
        append_decimal(&mut m, MIN_RUNS);
        return Err(BootstrapError::from_source(BootstrapPhase::DrainQueue, m));
    }
    if summary.storm_term_jumps_total > 0 {
        let mut m = "bolt-on retirement gate: ELECTION_STORM_TERM_JUMPS_TOTAL=".to_owned();
        append_decimal(&mut m, summary.storm_term_jumps_total);
        m.append(" (must be 0)");
        return Err(BootstrapError::from_source(BootstrapPhase::DrainQueue, m));
    }
    if summary.runaway_term_repro_advanced {
        return Err(
            BootstrapError::phase(
                BootstrapPhase::DrainQueue,
                "bolt-on retirement gate: runaway-term repro advanced terms (must be 0)",
            ),
        );
    }
    Ok(())
}

/// Retirement is allowed after clean windows and after no others.
pub proof fn gate_opens_iff_clean(s: JepsenWindowSummary)
    ensures
        objection(s) is None <==> s.spec_is_clean(),
{
}

/// What follows the first occurrence of a text in another.
pub open spec fn after_first(s: Seq<char>, needle: Seq<char>) -> Option<Seq<char>>
    decreases s.len(),
{
    if s.len() < needle.len() {
        None
    } else if s.take(needle.len() as int) == needle {
        Some(s.skip(needle.len() as int))
    } else if s.len() == 0 {
        None
    } else {
        after_first(s.drop_first(), needle)
    }
}

/// A key in quotes.
pub open spec fn quoted(key: Seq<char>) -> Seq<char> {
    seq!['"'] + key + seq!['"']
}

/// What stands behind the colon of a key, without leading white space.
pub open spec fn field_text(text: Seq<char>, key: Seq<char>) -> Option<Seq<char>> {
    match after_first(text, quoted(key)) {
        Some(rest) => match after_first(rest, seq![':']) {
            Some(value) => Some(crate::parse::trim_front(value)),
            None => None,
        },
        None => None,
    }
}

/// Is a character a decimal digit?
pub open spec fn is_digit_char(c: char) -> bool {
    '0' <= c <= '9'
}

/// How many digits a text begins with.
pub open spec fn digit_run(s: Seq<char>) -> nat
    decreases s.len(),
{
    if s.len() > 0 && is_digit_char(s[0]) {
        1 + digit_run(s.drop_first())
    } else {
        0
    }
}

/// The number that a text begins with.
pub open spec fn leading_number(s: Seq<char>) -> Option<u64> {
    let d = s.take(digit_run(s) as int).map_values(|c: char| c as u8);
    if d.len() > 0 && crate::parse::digits_value(d) <= u64::MAX {
        Some(crate::parse::digits_value(d) as u64)
    } else {
        None
    }
}

/// The number of a key.
pub open spec fn number_field(text: Seq<char>, key: Seq<char>) -> Option<u64> {
    match field_text(text, key) {
        Some(v) => leading_number(v),
        None => None,
    }
}

/// Does a text begin with a word?
pub open spec fn begins_with(s: Seq<char>, word: Seq<char>) -> bool {
    s.len() >= word.len() && s.take(word.len() as int) == word
}

/// The flag of a key.
pub open spec fn flag_field(text: Seq<char>, key: Seq<char>) -> Option<bool> {
    match field_text(text, key) {
        Some(v) => if begins_with(v, "true"@) {
            Some(true)
        } else if begins_with(v, "false"@) {
            Some(false)
        } else {
            None
        },
        None => None,
    }
}

/// Does a text hold a word at a position?
fn matches_at(s: &Vec<char>, at: usize, word: &Vec<char>) -> (b: bool)
    requires
        at <= s.len(),
    ensures
        b == begins_with(s@.skip(at as int), word@),
{
    if s.len() - at < word.len() {
        return false;
    }
    let mut i: usize = 0;
    while i < word.len()
        invariant
            at <= s.len(),
            word.len() <= s.len() - at,
            i <= word.len(),
            forall|k: int| 0 <= k < i ==> s@[at + k] == #[trigger] word@[k],
        decreases word.len() - i,
    {
        if s[at + i] != word[i] {
            assert(s@.skip(at as int).take(word@.len() as int)[i as int] == s@[at + i]);
            return false;
        }
        i = i + 1;
    }
    assert(s@.skip(at as int).take(word@.len() as int) =~= word@);
    true
}

/// The position behind the first occurrence of a word at or after a position.
fn find_after(s: &Vec<char>, from: usize, word: &Vec<char>) -> (r: Option<usize>)
    requires
        from <= s.len(),
    ensures
        match r {
            Some(at) => at <= s.len() && after_first(s@.skip(from as int), word@) == Some(
                s@.skip(at as int),
            ),
            None => after_first(s@.skip(from as int), word@) is None,
        },
{
    let mut at: usize = from;
    loop
        invariant
            from <= at <= s.len(),
            after_first(s@.skip(from as int), word@) == after_first(s@.skip(at as int), word@),
        decreases s.len() - at,
    {
        if matches_at(s, at, word) {
            assert(s@.skip(at as int).skip(word@.len() as int) =~= s@.skip(at + word@.len()));
            return Some(at + word.len());
        }
        if at == s.len() {
            return None;
        }
        assert(s@.skip(at as int).drop_first() =~= s@.skip(at + 1));
        at = at + 1;
    }
}

/// The position of the value of a key.
fn find_field(s: &Vec<char>, key: &str) -> (r: Option<usize>)
    ensures
        match r {
            Some(at) => at <= s.len() && field_text(s@, key@) == Some(s@.skip(at as int)),
            None => field_text(s@, key@) is None,
        },
{
    let mut needle: Vec<char> = Vec::new();
    needle.push('"');
    let mut name = chars_of(key);
    needle.append(&mut name);
    needle.push('"');
    assert(needle@ =~= quoted(key@));
    assert(s@.skip(0) =~= s@);
    let after_key: usize = match find_after(s, 0, &needle) {
        Some(at) => at,
        None => {
            return None;
        },
    };
    let mut colon: Vec<char> = Vec::new();
    colon.push(':');
    assert(colon@ =~= seq![':']);
    let mut at: usize = match find_after(s, after_key, &colon) {
        Some(at) => at,
        None => {
            return None;
        },
    };
    let ghost value = s@.skip(at as int);
    while at < s.len() && is_white_space(s[at])
        invariant
            at <= s.len(),
            crate::parse::trim_front(value) == crate::parse::trim_front(s@.skip(at as int)),
        decreases s.len() - at,
    {
        assert(s@.skip(at as int).drop_first() =~= s@.skip(at + 1));
        at = at + 1;
    }
    Some(at)
}

/// The number of a key.
fn read_u64(s: &Vec<char>, key: &str) -> (r: Option<u64>)
    ensures
        r == number_field(s@, key@),
{
    let start: usize = match find_field(s, key) {
        Some(at) => at,
        None => {
            return None;
        },
    };
    let ghost v = s@.skip(start as int);
    let mut d: Vec<u8> = Vec::new();
    let mut at: usize = start;
    assert(v.skip(0) =~= v);
    assert(d@ =~= v.take(0).map_values(|c: char| c as u8));
    while at < s.len() && '0' <= s[at] && s[at] <= '9'
        invariant
            start <= at <= s.len(),
            v == s@.skip(start as int),
            digit_run(v) == (at - start) + digit_run(v.skip(at - start)),
            d@ == v.take(at - start).map_values(|c: char| c as u8),
            crate::parse::all_digits(d@),
        decreases s.len() - at,
    {
        let ghost k = at - start;
        proof {
            assert(v.skip(k).drop_first() =~= v.skip(k + 1));
            assert(v.skip(k)[0] == s@[at as int]);
        }
        let ghost before = d@;
        d.push(s[at] as u8);
        proof {
            assert(d@ =~= v.take(k + 1).map_values(|c: char| c as u8));
            assert forall|i: int| 0 <= i < d@.len() implies crate::parse::is_digit(
                #[trigger] d@[i],
            ) by {
                if i < before.len() {
                    assert(crate::parse::is_digit(before[i]));
                }
            }
        }
        at = at + 1;
    }
    proof {
        let k = at - start;
        if at < s.len() {
            assert(v.skip(k)[0] == s@[at as int]);
        }
        assert(digit_run(v.skip(k)) == 0);
    }
    parse_digits(d.as_slice(), u64::MAX)
}

/// The flag of a key.
fn read_bool(s: &Vec<char>, key: &str) -> (r: Option<bool>)
    ensures
        r == flag_field(s@, key@),
{
    let at: usize = match find_field(s, key) {
        Some(at) => at,
        None => {
            return None;
        },
    };
    let yes = chars_of("true");
    let no = chars_of("false");
    if matches_at(s, at, &yes) {
        Some(true)
    } else if matches_at(s, at, &no) {
        Some(false)
    } else {
        None
    }
}

/// Read the summary of a window. Of the three fields, the first that is missing
/// or unreadable is reported.
pub fn parse_manifest(text: &str) -> (r: Result<JepsenWindowSummary, BootstrapError>)
    ensures
        ({
            let runs = number_field(text@, "runs"@);
            let jumps = number_field(text@, "storm_term_jumps_total"@);
            let advanced = flag_field(text@, "runaway_term_repro_advanced"@);
            match r {
                Ok(s) => {
                    &&& runs == Some(s.runs)
                    &&& jumps == Some(s.storm_term_jumps_total)
                    &&& advanced == Some(s.runaway_term_repro_advanced)
                },
                Err(e) => if runs is None {
                    e.says(BootstrapPhase::DrainQueue, "manifest missing 'runs'"@)
                } else if jumps is None {
                    e.says(
                        BootstrapPhase::DrainQueue,
                        "manifest missing 'storm_term_jumps_total'"@,
                    )
                } else {
                    advanced is None && e.says(
                        BootstrapPhase::DrainQueue,
                        "manifest missing 'runaway_term_repro_advanced'"@,
                    )
                },
            }
        }),
{
    let s = chars_of(text);
    let runs: u64 = match read_u64(&s, "runs") {
        Some(n) => n,
        None => {
            return Err(
                BootstrapError::phase(BootstrapPhase::DrainQueue, "manifest missing 'runs'"),
            );
        },
    };
    let storm_term_jumps_total: u64 = match read_u64(&s, "storm_term_jumps_total") {
        Some(n) => n,
        None => {
            return Err(
                BootstrapError::phase(
                    BootstrapPhase::DrainQueue,
                    "manifest missing 'storm_term_jumps_total'",
                ),
            );
        },
    };
    let runaway_term_repro_advanced: bool = match read_bool(&s, "runaway_term_repro_advanced") {
        Some(b) => b,
        None => {
            return Err(
                BootstrapError::phase(
                    BootstrapPhase::DrainQueue,
                    "manifest missing 'runaway_term_repro_advanced'",
                ),
            );
        },
    };
    Ok(JepsenWindowSummary { runs, storm_term_jumps_total, runaway_term_repro_advanced })
}

/// A member of a manifest as it is written: a key in quotes, a colon and a value,
/// with white space before and behind each.
pub struct MemberText {
    pub before_key: Seq<char>,
    pub key: Seq<char>,
    pub behind_key: Seq<char>,
    pub before_value: Seq<char>,
    pub value: Seq<char>,
    pub behind_value: Seq<char>,
}

/// Nothing but white space.
pub open spec fn blank(s: Seq<char>) -> bool {
    forall|i: int| 0 <= i < s.len() ==> crate::parse::is_space(#[trigger] s[i])
}

impl MemberText {
    /// White space stands where it should.
    pub open spec fn well_spaced(self) -> bool {
        blank(self.before_key) && blank(self.behind_key) && blank(self.before_value) && blank(
            self.behind_value,
        )
    }

    /// What stands behind the key.
    pub open spec fn behind(self) -> Seq<char> {
        self.behind_key + seq![':'] + self.before_value + self.value + self.behind_value
    }

    /// The member as text.
    pub open spec fn text(self) -> Seq<char> {
        self.before_key + quoted(self.key) + self.behind()
    }
}

/// Members with commas between them.
pub open spec fn members_text(members: Seq<MemberText>) -> Seq<char>
    decreases members.len(),
{
    if members.len() == 0 {
        Seq::empty()
    } else if members.len() == 1 {
        members[0].text()
    } else {
        members[0].text() + seq![','] + members_text(members.drop_first())
    }
}

/// A manifest as text: its members in braces.
pub open spec fn manifest_text(
    lead: Seq<char>,
    members: Seq<MemberText>,
    trail: Seq<char>,
) -> Seq<char> {
    lead + seq!['{'] + members_text(members) + seq!['}'] + trail
}

/// A search passes over characters that are not the first of what is sought.
proof fn lemma_pass_over(p: Seq<char>, rest: Seq<char>, needle: Seq<char>)
    requires
        needle.len() > 0,
        forall|i: int| 0 <= i < p.len() ==> #[trigger] p[i] != needle[0],
    ensures
        after_first(p + rest, needle) == after_first(rest, needle),
    decreases p.len(),
{
    if p.len() == 0 {
        assert(p + rest =~= rest);
    } else {
        let s = p + rest;
        let q = p.drop_first();
        assert forall|i: int| 0 <= i < q.len() implies #[trigger] q[i] != needle[0] by {
            assert(q[i] == p[i + 1]);
        }
        lemma_pass_over(q, rest, needle);
        assert(s.drop_first() =~= q + rest);
        assert(s[0] == p[0]);
        if s.len() >= needle.len() {
            assert(s.take(needle.len() as int)[0] == s[0]);
        } else {
            lemma_too_short(q + rest, needle);
        }
    }
}

/// Nothing is found in what is too short.
proof fn lemma_too_short(s: Seq<char>, needle: Seq<char>)
    requires
        s.len() < needle.len(),
    ensures
        after_first(s, needle) is None,
{
}

/// A search for what comes first finds it.
proof fn lemma_found_at_once(needle: Seq<char>, rest: Seq<char>)
    ensures
        after_first(needle + rest, needle) == Some(rest),
{
    let s = needle + rest;
    assert(s.take(needle.len() as int) =~= needle);
    assert(s.skip(needle.len() as int) =~= rest);
}

/// A key that can be sought: it does not begin with white space or a colon, and
/// holds no quotes.
spec fn plain_key(key: Seq<char>) -> bool {
    &&& key.len() > 0
    &&& !crate::parse::is_space(key[0])
    &&& key[0] != ':'
    &&& forall|i: int| 0 <= i < key.len() ==> #[trigger] key[i] != '"'
}

/// A search for a key passes over another key.
proof fn lemma_pass_over_key(k: Seq<char>, rest: Seq<char>, key: Seq<char>)
    requires
        plain_key(k),
        plain_key(key),
        k != key,
        rest.len() > 0,
        rest[0] != key[0],
    ensures
        after_first(quoted(k) + rest, quoted(key)) == after_first(rest, quoted(key)),
{
    let needle = quoted(key);
    let s = quoted(k) + rest;
    let n = needle.len() as int;
    assert(needle[0] == '"' && needle[n - 1] == '"');
    assert(forall|i: int| 0 <= i < key.len() ==> needle[i + 1] == #[trigger] key[i]);
    assert(s[0] == '"' && s[k.len() as int + 1] == '"');
    assert(forall|i: int| 0 <= i < k.len() ==> s[i + 1] == #[trigger] k[i]);
    if s.len() >= n && s.take(n) == needle {
        assert(forall|i: int| 0 <= i < n ==> s[i] == #[trigger] s.take(n)[i]);
        if k.len() < key.len() {
            assert(needle[k.len() as int + 1] == key[k.len() as int]);
            assert(s.take(n)[k.len() as int + 1] == '"');
        } else if k.len() > key.len() {
            assert(s.take(n)[n - 1] == k[key.len() as int]);
        } else {
            assert forall|i: int| 0 <= i < k.len() implies k[i] == key[i] by {
                assert(s.take(n)[i + 1] == k[i]);
                assert(needle[i + 1] == key[i]);
            }
            assert(k =~= key);
        }
    }
    let inner = k + (seq!['"'] + rest);
    assert(s.drop_first() =~= inner);
    if s.len() < n {
        lemma_too_short(s, needle);
        lemma_too_short(rest, needle);
    } else {
        assert(after_first(s, needle) == after_first(inner, needle));
        lemma_pass_over(k, seq!['"'] + rest, needle);
        let end = seq!['"'] + rest;
        assert(end.drop_first() =~= rest);
        if end.len() >= n {
            assert(end.take(n)[1] == rest[0]);
            assert(needle[1] == key[0]);
        } else {
            lemma_too_short(end, needle);
            lemma_too_short(rest, needle);
        }
    }
}

/// Trimming drops the white space in front and nothing else.
proof fn lemma_trim_blank(gap: Seq<char>, rest: Seq<char>)
    requires
        blank(gap),
        rest.len() > 0,
        !crate::parse::is_space(rest[0]),
    ensures
        crate::parse::trim_front(gap + rest) == rest,
    decreases gap.len(),
{
    let s = gap + rest;
    if gap.len() == 0 {
        assert(s =~= rest);
    } else {
        let g = gap.drop_first();
        assert forall|i: int| 0 <= i < g.len() implies crate::parse::is_space(#[trigger] g[i]) by {
            assert(g[i] == gap[i + 1]);
        }
        assert(s[0] == gap[0]);
        assert(s.drop_first() =~= g + rest);
        lemma_trim_blank(g, rest);
    }
}

/// A value that can be read: it is there, does not begin with white space, and
/// holds no quotes.
spec fn plain_value(value: Seq<char>) -> bool {
    &&& value.len() > 0
    &&& !crate::parse::is_space(value[0])
    &&& forall|i: int| 0 <= i < value.len() ==> #[trigger] value[i] != '"'
}

/// What ends a value: the end of the text, white space, a comma or a brace.
spec fn ends_value(rest: Seq<char>) -> bool {
    rest.len() == 0 || crate::parse::is_space(rest[0]) || rest[0] == ',' || rest[0] == '}'
}

/// The value of a key is found among members, wherever its member stands.
proof fn lemma_member_found(
    members: Seq<MemberText>,
    tail: Seq<char>,
    i: int,
) -> (rest: Seq<char>)
    requires
        0 <= i < members.len(),
        forall|j: int|
            0 <= j < members.len() ==> (#[trigger] members[j]).well_spaced() && plain_key(
                members[j].key,
            ) && plain_value(members[j].value),
        forall|j: int| 0 <= j < i ==> (#[trigger] members[j]).key != members[i].key,
        tail.len() > 0,
        tail[0] == '}',
    ensures
        field_text(members_text(members) + tail, members[i].key) == Some(
            members[i].value + rest,
        ),
        ends_value(rest),
    decreases members.len(),
{
    let m = members[0];
    let key = members[i].key;
    let needle = quoted(key);
    let others = members.drop_first();
    let following = if members.len() == 1 {
        tail
    } else {
        seq![','] + members_text(others) + tail
    };
    let s = members_text(members) + tail;
    let behind = m.behind() + following;
    assert(s =~= m.before_key + (quoted(m.key) + behind));
    lemma_pass_over(m.before_key, quoted(m.key) + behind, needle);
    assert(behind[0] == if m.behind_key.len() > 0 { m.behind_key[0] } else { ':' });
    if i == 0 {
        lemma_found_at_once(needle, behind);
        let value = m.value + (m.behind_value + following);
        let spaced = m.before_value + value;
        assert(behind =~= m.behind_key + (seq![':'] + spaced));
        lemma_pass_over(m.behind_key, seq![':'] + spaced, seq![':']);
        lemma_found_at_once(seq![':'], spaced);
        assert(value[0] == m.value[0]);
        lemma_trim_blank(m.before_value, value);
        let rest = m.behind_value + following;
        assert(rest[0] == if m.behind_value.len() > 0 { m.behind_value[0] } else { following[0] });
        rest
    } else {
        lemma_pass_over_key(m.key, behind, key);
        let over = m.behind() + seq![','];
        let left = members_text(others) + tail;
        assert(behind =~= over + left);
        assert forall|k: int| 0 <= k < over.len() implies #[trigger] over[k] != needle[0] by {
            let a = m.behind_key.len();
            let b = a + 1 + m.before_value.len();
            let c = b + m.value.len();
            let d = c + m.behind_value.len();
            if k < a {
                assert(over[k] == m.behind_key[k]);
            } else if k == a {
                assert(over[k] == ':');
            } else if k < b {
                assert(over[k] == m.before_value[k - a - 1]);
            } else if k < c {
                assert(over[k] == m.value[k - b]);
            } else if k < d {
                assert(over[k] == m.behind_value[k - c]);
            } else {
                assert(over[k] == ',');
            }
        }
        lemma_pass_over(over, left, needle);
        assert(others[i - 1] == members[i]);
        assert forall|j: int| 0 <= j < others.len() implies (#[trigger] others[j]).well_spaced()
            && plain_key(others[j].key) && plain_value(others[j].value) by {
            assert(others[j] == members[j + 1]);
        }
        assert forall|j: int| 0 <= j < i - 1 implies (#[trigger] others[j]).key
            != others[i - 1].key by {
            assert(others[j] == members[j + 1]);
        }
        lemma_member_found(others, tail, i - 1)
    }
}

/// The digits of a number are read back.
proof fn lemma_digits_read_back(n: nat)
    ensures
        ({
            let t = crate::text::decimal_text(n);
            &&& t.len() > 0
            &&& forall|i: int| 0 <= i < t.len() ==> is_digit_char(#[trigger] t[i])
            &&& crate::parse::digits_value(t.map_values(|c: char| c as u8)) == n
        }),
    decreases n,
{
    let t = crate::text::decimal_text(n);
    let d = t.map_values(|c: char| c as u8);
    if n < 10 {
        assert(t =~= seq![crate::text::digit_char(n)]);
        assert(d =~= seq![(48 + n) as u8]);
        assert(d.drop_last() =~= Seq::empty());
        assert(crate::parse::digits_value(d.drop_last()) == 0);
        assert(crate::parse::digits_value(d) == n);
        assert(is_digit_char(t[0]));
    } else {
        lemma_digits_read_back(n / 10);
        let h = crate::text::decimal_text(n / 10);
        assert(t =~= h.push(crate::text::digit_char(n % 10)));
        assert(d.drop_last() =~= h.map_values(|c: char| c as u8));
        assert(d.last() == (48 + n % 10) as u8);
        assert(crate::parse::digits_value(d) == 10 * (n / 10) + n % 10);
        assert forall|i: int| 0 <= i < t.len() implies is_digit_char(#[trigger] t[i]) by {
            if i < h.len() {
                assert(t[i] == h[i]);
            }
        }
    }
}

/// A run of digits ends where the digits end.
proof fn lemma_digit_run(t: Seq<char>, rest: Seq<char>)
    requires
        forall|i: int| 0 <= i < t.len() ==> is_digit_char(#[trigger] t[i]),
        rest.len() == 0 || !is_digit_char(rest[0]),
    ensures
        digit_run(t + rest) == t.len(),
    decreases t.len(),
{
    let s = t + rest;
    if t.len() == 0 {
        assert(s =~= rest);
    } else {
        let u = t.drop_first();
        assert forall|i: int| 0 <= i < u.len() implies is_digit_char(#[trigger] u[i]) by {
            assert(u[i] == t[i + 1]);
        }
        assert(s.drop_first() =~= u + rest);
        assert(s[0] == t[0]);
        lemma_digit_run(u, rest);
    }
}

/// A number is read back from its decimal notation.
proof fn lemma_number_read_back(n: u64, rest: Seq<char>)
    requires
        ends_value(rest),
    ensures
        leading_number(crate::text::decimal_text(n as nat) + rest) == Some(n),
        plain_value(crate::text::decimal_text(n as nat)),
{
    let t = crate::text::decimal_text(n as nat);
    lemma_digits_read_back(n as nat);
    lemma_digit_run(t, rest);
    assert((t + rest).take(t.len() as int) =~= t);
    assert(is_digit_char(t[0]));
}

/// How a flag is written.
pub open spec fn flag_text(b: bool) -> Seq<char> {
    if b {
        "true"@
    } else {
        "false"@
    }
}

/// A manifest that holds the three members of a summary is read back, in whatever
/// order they stand and however they are spaced.
pub proof fn manifests_are_read_back(
    lead: Seq<char>,
    members: Seq<MemberText>,
    trail: Seq<char>,
    runs_at: int,
    jumps_at: int,
    advanced_at: int,
    summary: JepsenWindowSummary,
)
    requires
        blank(lead),
        members.len() == 3,
        forall|i: int| 0 <= i < 3 ==> (#[trigger] members[i]).well_spaced(),
        0 <= runs_at < 3 && 0 <= jumps_at < 3 && 0 <= advanced_at < 3,
        members[runs_at].key == "runs"@,
        members[runs_at].value == crate::text::decimal_text(summary.runs as nat),
        members[jumps_at].key == "storm_term_jumps_total"@,
        members[jumps_at].value == crate::text::decimal_text(
            summary.storm_term_jumps_total as nat,
        ),
        members[advanced_at].key == "runaway_term_repro_advanced"@,
        members[advanced_at].value == flag_text(summary.runaway_term_repro_advanced),
    ensures
        ({
            let text = manifest_text(lead, members, trail);
            &&& number_field(text, "runs"@) == Some(summary.runs)
            &&& number_field(text, "storm_term_jumps_total"@) == Some(
                summary.storm_term_jumps_total,
            )
            &&& flag_field(text, "runaway_term_repro_advanced"@) == Some(
                summary.runaway_term_repro_advanced,
            )
        }),
{
    reveal_strlit("runs");
    reveal_strlit("storm_term_jumps_total");
    reveal_strlit("runaway_term_repro_advanced");
    reveal_strlit("true");
    reveal_strlit("false");
    let runs = "runs"@;
    let jumps = "storm_term_jumps_total"@;
    let advanced = "runaway_term_repro_advanced"@;
    assert(runs[1] == 'u' && jumps[1] == 't' && advanced[1] == 'u');
    assert(runs.len() != advanced.len());
    assert(plain_key(runs) && plain_key(jumps) && plain_key(advanced));
    lemma_number_read_back(summary.runs, Seq::empty());
    lemma_number_read_back(summary.storm_term_jumps_total, Seq::empty());
    let flag = flag_text(summary.runaway_term_repro_advanced);
    assert(plain_value(flag));
    assert forall|j: int| 0 <= j < members.len() implies plain_key(
        (#[trigger] members[j]).key,
    ) && plain_value(members[j].value) by {}
    let tail = seq!['}'] + trail;
    let body = members_text(members) + tail;
    let open = lead + seq!['{'];
    let text = manifest_text(lead, members, trail);
    assert(text =~= open + body);
    assert forall|i: int| 0 <= i < open.len() implies #[trigger] open[i] != '"' by {
        if i < lead.len() {
            assert(open[i] == lead[i]);
        }
    }
    let r1 = lemma_member_found(members, tail, runs_at);
    lemma_pass_over(open, body, quoted(runs));
    lemma_number_read_back(summary.runs, r1);
    let r2 = lemma_member_found(members, tail, jumps_at);
    lemma_pass_over(open, body, quoted(jumps));
    lemma_number_read_back(summary.storm_term_jumps_total, r2);
    let r3 = lemma_member_found(members, tail, advanced_at);
    lemma_pass_over(open, body, quoted(advanced));
    let v = flag + r3;
    assert(v.take(flag.len() as int) =~= flag);
    if !summary.runaway_term_repro_advanced {
        assert(v[0] == 'f');
        if v.len() >= 4 {
            assert(v.take(4)[0] == 'f');
            assert("true"@[0] == 't');
        }
    }
}

/// A window is clean with fourteen runs or more, no term jump, and no run in which the
/// partitioned node advanced its term.
pub proof fn clean_windows_are_long_and_quiet(s: JepsenWindowSummary)
    ensures
        s.spec_is_clean() <==> s.runs >= 14 && s.storm_term_jumps_total == 0
            && !s.runaway_term_repro_advanced,
        s.runs < 14 ==> objection(s) == Some(
            "bolt-on retirement gate: only "@ + crate::text::decimal_text(s.runs as nat)
                + " Jepsen run(s) in window, need "@ + crate::text::decimal_text(14),
        ),
        s.runs >= 14 && s.storm_term_jumps_total > 0 ==> objection(s) == Some(
            "bolt-on retirement gate: ELECTION_STORM_TERM_JUMPS_TOTAL="@
                + crate::text::decimal_text(s.storm_term_jumps_total as nat) + " (must be 0)"@,
        ),
        s.runs >= 14 && s.storm_term_jumps_total == 0 && s.runaway_term_repro_advanced
            ==> objection(s) == Some(
            "bolt-on retirement gate: runaway-term repro advanced terms (must be 0)"@,
        ),
{
}

/// What follows the first occurrence of a text is what is left of the other text behind it,
/// and it occurs nowhere before; it follows nothing exactly where it does not occur.
pub proof fn first_occurrences_are_found(s: Seq<char>, needle: Seq<char>) -> (at: int)
    ensures
        after_first(s, needle) matches Some(rest) ==> {
            &&& 0 <= at <= s.len() - needle.len()
            &&& s.subrange(at, at + needle.len()) == needle
            &&& rest == s.skip(at + needle.len())
            &&& forall|k: int|
                0 <= k < at ==> #[trigger] s.subrange(k, k + needle.len()) != needle
        },
        after_first(s, needle) is None ==> forall|k: int|
            0 <= k <= s.len() - needle.len() ==> #[trigger] s.subrange(k, k + needle.len())
                != needle,
    decreases s.len(),
{
    let n = needle.len() as int;
    if s.len() < n {
        0
    } else if s.take(n) == needle {
        assert(s.subrange(0, n) =~= s.take(n));
        0
    } else if s.len() == 0 {
        assert(s.take(0) =~= needle);
        0
    } else {
        let rest = s.drop_first();
        let at = first_occurrences_are_found(rest, needle);
        assert(s.subrange(0, n) =~= s.take(n));
        assert forall|k: int| 0 < k <= s.len() - n implies #[trigger] s.subrange(k, k + n)
            == rest.subrange(k - 1, k - 1 + n) by {
            assert(s.subrange(k, k + n) =~= rest.subrange(k - 1, k - 1 + n));
        }
        if after_first(rest, needle) is Some {
            assert(s.skip(at + 1 + n) =~= rest.skip(at + n));
        }
        at + 1
    }
}

/// A text that begins with the decimal notation of a number and goes on with no digit has
/// that number, where it is not too large; one that begins with no digit has none.
pub proof fn leading_numbers_are_read(n: nat, rest: Seq<char>, s: Seq<char>)
    requires
        rest.len() == 0 || !('0' <= rest[0] <= '9'),
    ensures
        n <= u64::MAX ==> leading_number(crate::text::decimal_text(n) + rest) == Some(n as u64),
        n > u64::MAX ==> leading_number(crate::text::decimal_text(n) + rest) is None,
        s.len() == 0 || !('0' <= s[0] <= '9') ==> leading_number(s) is None,
{
    let t = crate::text::decimal_text(n);
    crate::text::decimal_texts_differ(n, n);
    lemma_run_of_digits(t, rest);
    let d = (t + rest).take(digit_run(t + rest) as int).map_values(|c: char| c as u8);
    assert((t + rest).take(t.len() as int) =~= t);
    assert forall|i: int| 0 <= i < t.len() implies #[trigger] d[i] == crate::text::decimal_bytes(
        n,
    )[i] by {
        assert(t[i] == crate::text::decimal_bytes(n)[i] as char);
    }
    assert(d =~= crate::text::decimal_bytes(n));
    crate::parse::notations_denote_their_number(n);
    assert(s.take(0).map_values(|c: char| c as u8).len() == 0);
}

proof fn lemma_run_of_digits(t: Seq<char>, rest: Seq<char>)
    requires
        forall|i: int| 0 <= i < t.len() ==> '0' <= #[trigger] t[i] <= '9',
        rest.len() == 0 || !('0' <= rest[0] <= '9'),
    ensures
        digit_run(t + rest) == t.len(),
    decreases t.len(),
{
    if t.len() == 0 {
        assert(t + rest =~= rest);
    } else {
        let u = t.drop_first();
        assert forall|i: int| 0 <= i < u.len() implies '0' <= #[trigger] u[i] <= '9' by {
            assert(u[i] == t[i + 1]);
        }
        lemma_run_of_digits(u, rest);
        assert((t + rest).drop_first() =~= u + rest);
        assert((t + rest)[0] == t[0]);
    }
}

/// The value of a key stands behind the key in quotes and the colon that follows it, without
/// the white space before it. A flag is one that begins with `true` or with `false`.
pub proof fn values_stand_behind_their_key(text: Seq<char>, key: Seq<char>, rest: Seq<char>)
    ensures
        after_first(text, seq!['"'] + key + seq!['"']) is None ==> field_text(text, key) is None
            && number_field(text, key) is None && flag_field(text, key) is None,
        after_first(text, seq!['"'] + key + seq!['"']) == Some(rest) ==> (field_text(
            text,
            key,
        ) is Some <==> after_first(rest, seq![':']) is Some),
        field_text(text, key) matches Some(v) ==> number_field(text, key) == leading_number(v),
        field_text(text, key) matches Some(v) ==> (flag_field(text, key) == Some(true)
            <==> crate::controller::streaming::has_prefix(v, "true"@)),
        field_text(text, key) matches Some(v) ==> (flag_field(text, key) == Some(false)
            <==> crate::controller::streaming::has_prefix(v, "false"@)),
{
    reveal_strlit("true");
    reveal_strlit("false");
    if field_text(text, key) is Some {
        let v = field_text(text, key)->0;
        if begins_with(v, "true"@) && begins_with(v, "false"@) {
            assert(v.take(4)[0] == v[0] && v.take(5)[0] == v[0]);
            assert("true"@[0] == 't' && "false"@[0] == 'f');
        }
    }
}

} // verus!
