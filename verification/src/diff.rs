//! Line diffs between an existing target text and a freshly rendered text,
//! displayed gap-compressed: only lines within a fixed distance of a change
//! are shown, and every hidden run is folded into a one-line count marker.

use vstd::prelude::*;

verus! {

/// The number of unchanged lines to show around diff changes. This
/// provides context to the viewer within the file: a line is shown exactly
/// when a changed line lies within this many lines of it, on either side.
pub const DIFF_GAP_BUFFER_SIZE: usize = 4;

/// The kind of one line of a diff.
#[derive(Debug, PartialEq, Eq, Structural, Clone, Copy)]
pub enum ChangeTag {
    /// The line occurs only in the new text
    Insert,
    /// The line occurs only in the old text
    Delete,
    /// The line occurs in both texts
    Equal,
}

/// One line of a diff: its kind and its text, newline-terminated.
#[derive(Debug, PartialEq)]
pub struct DiffRecord {
    /// The kind of change
    pub tag: ChangeTag,
    /// The line's text, including its terminating newline
    pub text: String,
}

impl View for DiffRecord {
    type V = (ChangeTag, Seq<char>);

    open spec fn view(&self) -> (ChangeTag, Seq<char>) {
        (self.tag, self.text@)
    }
}

/// The views of a list of diff records.
pub open spec fn recs_view(v: Seq<DiffRecord>) -> Seq<(ChangeTag, Seq<char>)> {
    v.map_values(|d: DiffRecord| d@)
}

/// What similar's line diff yields for a pair of texts: the ordered tagged
/// lines, each line's text carrying a terminating newline.
pub uninterp spec fn line_changes_of(old_text: Seq<char>, new_text: Seq<char>) -> Seq<
    (ChangeTag, Seq<char>),
>;

/// The index of the first newline in a text, or its length when none.
pub open spec fn first_nl(s: Seq<char>) -> int
    decreases s.len(),
{
    if s.len() == 0 {
        0
    } else if s[0] == '\n' {
        0
    } else {
        1 + first_nl(s.drop_first())
    }
}

/// The lines of a text, each keeping its terminating newline; a final
/// segment without one is its own line, and an empty text has no lines.
pub open spec fn lines_of(s: Seq<char>) -> Seq<Seq<char>>
    decreases s.len(),
    via lines_of_decreases
{
    if s.len() == 0 {
        Seq::empty()
    } else {
        let i = first_nl(s);
        if i == s.len() {
            seq![s]
        } else {
            seq![s.take(i + 1)] + lines_of(s.skip(i + 1))
        }
    }
}

/// The first newline lies within the text.
pub proof fn lemma_first_nl_bound(s: Seq<char>)
    ensures
        0 <= first_nl(s) <= s.len(),
        first_nl(s) < s.len() ==> s[first_nl(s)] == '\n',
        forall|j: int| 0 <= j < first_nl(s) ==> s[j] != '\n',
    decreases s.len(),
{
    if s.len() > 0 && s[0] != '\n' {
        lemma_first_nl_bound(s.drop_first());
        assert forall|j: int| 0 <= j < first_nl(s) implies s[j] != '\n' by {
            if j > 0 {
                assert(s.drop_first()[j - 1] == s[j]);
            }
        }
    }
}

#[via_fn]
proof fn lines_of_decreases(s: Seq<char>) {
    lemma_first_nl_bound(s);
}

/// Where the first newline stands, given a scan that found it.
pub proof fn lemma_first_nl_at(s: Seq<char>, k: int)
    requires
        0 <= k <= s.len(),
        forall|j: int| 0 <= j < k ==> s[j] != '\n',
        k == s.len() || s[k] == '\n',
    ensures
        first_nl(s) == k,
    decreases k,
{
    if s.len() > 0 && k > 0 {
        lemma_first_nl_at(s.drop_first(), k - 1);
    }
}

/// A line as the diff displays it: with a newline appended when it lacks
/// one.
pub open spec fn terminated(l: Seq<char>) -> Seq<char> {
    if l.len() > 0 && l.last() == '\n' {
        l
    } else {
        l + seq!['\n']
    }
}

/// The diff of a text against itself: every line equal, in order, each
/// displayed newline-terminated.
pub open spec fn eq_records_spec(s: Seq<char>) -> Seq<(ChangeTag, Seq<char>)> {
    lines_of(s).map_values(|l: Seq<char>| (ChangeTag::Equal, terminated(l)))
}

/// What [`TextDiff::from_lines`] holds: for byte-identical texts the
/// all-equal line records, and otherwise whatever the line-diff primitive
/// yields.
pub open spec fn diff_records_of(old_text: Seq<char>, new_text: Seq<char>) -> Seq<
    (ChangeTag, Seq<char>),
> {
    if old_text == new_text {
        eq_records_spec(old_text)
    } else {
        line_changes_of(old_text, new_text)
    }
}

/// Whether a tag marks a changed line.
pub open spec fn is_change(t: ChangeTag) -> bool {
    t != ChangeTag::Equal
}

/// Whether any line of the diff is a change.
pub open spec fn has_changes(s: Seq<(ChangeTag, Seq<char>)>) -> bool {
    exists|i: int| 0 <= i < s.len() && is_change(s[i].0)
}

/// How many of the first `i` lines advance the old file's line counter:
/// every line that is not an insertion.
pub open spec fn old_before(s: Seq<(ChangeTag, Seq<char>)>, i: int) -> nat
    decreases i,
{
    if i <= 0 {
        0
    } else {
        old_before(s, i - 1) + if s[i - 1].0 != ChangeTag::Insert {
            1nat
        } else {
            0nat
        }
    }
}

/// How many of the first `i` lines advance the new file's line counter:
/// every line that is not a deletion.
pub open spec fn new_before(s: Seq<(ChangeTag, Seq<char>)>, i: int) -> nat
    decreases i,
{
    if i <= 0 {
        0
    } else {
        new_before(s, i - 1) + if s[i - 1].0 != ChangeTag::Delete {
            1nat
        } else {
            0nat
        }
    }
}

/// Whether line `i` is displayed: exactly when a changed line lies within
/// the gap threshold of it, before or after.
pub open spec fn shown(s: Seq<(ChangeTag, Seq<char>)>, i: int) -> bool {
    exists|j: int|
        0 <= j < s.len() && is_change(s[j].0) && i - (DIFF_GAP_BUFFER_SIZE as int) <= j <= i + (
        DIFF_GAP_BUFFER_SIZE as int)
}

/// A changed line at or before `i`, within the gap threshold.
pub open spec fn shown_by_earlier(s: Seq<(ChangeTag, Seq<char>)>, i: int) -> bool {
    exists|j: int|
        0 <= j <= i && j < s.len() && is_change(s[j].0) && i - j <= (DIFF_GAP_BUFFER_SIZE as int)
}

/// A changed line at or after `i`, within the gap threshold.
pub open spec fn shown_by_later(s: Seq<(ChangeTag, Seq<char>)>, i: int) -> bool {
    exists|j: int|
        i <= j < s.len() && 0 <= j && is_change(s[j].0) && j - i <= (DIFF_GAP_BUFFER_SIZE as int)
}

/// A line is shown exactly when a change within the threshold lies at or
/// before it, or at or after it.
pub proof fn lemma_shown_split(s: Seq<(ChangeTag, Seq<char>)>, i: int)
    ensures
        shown(s, i) == (shown_by_earlier(s, i) || shown_by_later(s, i)),
{
    if shown(s, i) {
        let j = choose|j: int|
            0 <= j < s.len() && is_change(s[j].0) && i - (DIFF_GAP_BUFFER_SIZE as int) <= j <= i + (
            DIFF_GAP_BUFFER_SIZE as int);
        if j <= i {
            assert(shown_by_earlier(s, i));
        } else {
            assert(shown_by_later(s, i));
        }
    }
    if shown_by_earlier(s, i) {
        let j = choose|j: int|
            0 <= j <= i && j < s.len() && is_change(s[j].0) && i - j <= (
            DIFF_GAP_BUFFER_SIZE as int);
        assert(shown(s, i));
    }
    if shown_by_later(s, i) {
        let j = choose|j: int|
            i <= j < s.len() && 0 <= j && is_change(s[j].0) && j - i <= (
            DIFF_GAP_BUFFER_SIZE as int);
        assert(shown(s, i));
    }
}

/// The decimal rendering of one digit.
pub open spec fn digit_str(d: nat) -> Seq<char> {
    if d == 0 {
        "0"@
    } else if d == 1 {
        "1"@
    } else if d == 2 {
        "2"@
    } else if d == 3 {
        "3"@
    } else if d == 4 {
        "4"@
    } else if d == 5 {
        "5"@
    } else if d == 6 {
        "6"@
    } else if d == 7 {
        "7"@
    } else if d == 8 {
        "8"@
    } else {
        "9"@
    }
}

/// The decimal rendering of a number.
pub open spec fn dec_str(n: nat) -> Seq<char>
    decreases n,
{
    if n < 10 {
        digit_str(n)
    } else {
        dec_str(n / 10) + digit_str(n % 10)
    }
}

/// A run of spaces.
pub open spec fn spaces(n: nat) -> Seq<char>
    decreases n,
{
    if n == 0 {
        Seq::empty()
    } else {
        spaces((n - 1) as nat) + " "@
    }
}

/// `s` right-aligned in a field of width `w`; a longer `s` stands as it is.
pub open spec fn pad_left(s: Seq<char>, w: nat) -> Seq<char> {
    if s.len() >= w {
        s
    } else {
        spaces((w - s.len()) as nat) + s
    }
}

/// The one-character marker of a line's kind.
pub open spec fn marker_str(t: ChangeTag) -> Seq<char> {
    match t {
        ChangeTag::Insert => "+"@,
        ChangeTag::Delete => "-"@,
        ChangeTag::Equal => " "@,
    }
}

/// The shared width of the two line-number columns: enough digits for the
/// final value either counter reaches, counting from one.
pub open spec fn width_of(s: Seq<(ChangeTag, Seq<char>)>) -> nat {
    let ow = dec_str(1 + old_before(s, s.len() as int)).len();
    let nw = dec_str(1 + new_before(s, s.len() as int)).len();
    if ow >= nw {
        ow
    } else {
        nw
    }
}

/// The displayed form of line `i`: marker, the two line numbers (blank on
/// the side the line does not exist on), and the line's text.
pub open spec fn line_str(s: Seq<(ChangeTag, Seq<char>)>, i: int, w: nat) -> Seq<char> {
    let old_num = if s[i].0 != ChangeTag::Insert {
        dec_str(1 + old_before(s, i))
    } else {
        Seq::empty()
    };
    let new_num = if s[i].0 != ChangeTag::Delete {
        dec_str(1 + new_before(s, i))
    } else {
        Seq::empty()
    };
    marker_str(s[i].0) + " "@ + pad_left(old_num, w) + " "@ + pad_left(new_num, w) + " | "@
        + s[i].1
}

/// The length of the run of hidden lines starting at `i`.
pub open spec fn hidden_run(s: Seq<(ChangeTag, Seq<char>)>, i: int) -> nat
    decreases s.len() - i,
{
    if i < 0 || i >= s.len() || shown(s, i) {
        0
    } else {
        1 + hidden_run(s, i + 1)
    }
}

/// A hidden run never reaches past the end of the diff.
pub proof fn lemma_hidden_run_bound(s: Seq<(ChangeTag, Seq<char>)>, i: int)
    requires
        0 <= i <= s.len(),
    ensures
        i + hidden_run(s, i) <= s.len(),
    decreases s.len() - i,
{
    if i < s.len() && !shown(s, i) {
        lemma_hidden_run_bound(s, i + 1);
    }
}

/// The marker that stands in for a hidden run of `n` lines.
pub open spec fn gap_str(n: nat) -> Seq<char> {
    "\n... "@ + dec_str(n) + " unchanged lines\n\n"@
}

/// The rendered diff from line `i` on: shown lines one after another, each
/// maximal hidden run folded into its count marker.
pub open spec fn render_from(s: Seq<(ChangeTag, Seq<char>)>, i: int, w: nat) -> Seq<char>
    decreases s.len() - i,
    when 0 <= i
    via render_from_decreases
{
    if i >= s.len() {
        Seq::empty()
    } else if shown(s, i) {
        line_str(s, i, w) + render_from(s, i + 1, w)
    } else {
        gap_str(hidden_run(s, i)) + render_from(s, i + hidden_run(s, i), w)
    }
}

#[via_fn]
proof fn render_from_decreases(s: Seq<(ChangeTag, Seq<char>)>, i: int, w: nat) {
    if 0 <= i && i < s.len() && !shown(s, i) {
        lemma_hidden_run_bound(s, i);
    }
}

/// The whole rendered diff: a single summary line when no line changed,
/// otherwise the gap-compressed listing.
pub open spec fn render_diff_spec(s: Seq<(ChangeTag, Seq<char>)>) -> Seq<char> {
    if !has_changes(s) {
        dec_str(s.len()) + " lines, no changes detected\n"@
    } else {
        render_from(s, 0, width_of(s))
    }
}

/// A diff without a single changed line renders as the one-line summary
/// naming its line count, and reports no changes.
pub proof fn lemma_unchanged_diff_summary(s: Seq<(ChangeTag, Seq<char>)>)
    requires
        forall|i: int| 0 <= i < s.len() ==> !is_change((#[trigger] s[i]).0),
    ensures
        !has_changes(s),
        render_diff_spec(s) == dec_str(s.len()) + " lines, no changes detected\n"@,
{
}

/// A text diffed against itself reports no changes and renders as the
/// single summary line naming its line count.
pub proof fn lemma_identical_texts_diff(t: Seq<char>)
    ensures
        !has_changes(diff_records_of(t, t)),
        render_diff_spec(diff_records_of(t, t)) == dec_str(lines_of(t).len())
            + " lines, no changes detected\n"@,
{
    let recs = eq_records_spec(t);
    assert(recs.len() == lines_of(t).len());
    assert forall|i: int| 0 <= i < recs.len() implies !is_change((#[trigger] recs[i]).0) by {
        assert(recs[i] == (ChangeTag::Equal, terminated(lines_of(t)[i])));
    }
    lemma_unchanged_diff_summary(recs);
}

/// Relies on similar::TextDiff::from_lines and iter_all_changes: an ordered
/// line diff of the two texts, one record per line, tagged as inserted,
/// deleted or equal; the Display form of a change is the line's text with
/// a newline appended when it lacks one. The result is a function of the
/// two texts alone.
#[verifier::external_body]
fn diff_lines(old_text: &str, new_text: &str) -> (r: Vec<DiffRecord>)
    ensures
        recs_view(r@) == line_changes_of(old_text@, new_text@),
{
    let d = similar::TextDiff::from_lines(old_text, new_text);
    let records = d.iter_all_changes().map(
        |c| DiffRecord {
            tag: match c.tag() {
                similar::ChangeTag::Insert => ChangeTag::Insert,
                similar::ChangeTag::Delete => ChangeTag::Delete,
                similar::ChangeTag::Equal => ChangeTag::Equal,
            },
            text: c.to_string(),
        },
    ).collect();
    records
}

/// The all-equal records of the text from character `start` on.
fn equal_records_from(text: &str, start: usize) -> (r: Vec<DiffRecord>)
    requires
        start <= text@.len(),
    ensures
        recs_view(r@) == eq_records_spec(text@.skip(start as int)),
    decreases text@.len() - start,
{
    let ghost suffix = text@.skip(start as int);
    let n = text.unicode_len();
    if start == n {
        let out: Vec<DiffRecord> = Vec::new();
        proof {
            assert(suffix =~= Seq::<char>::empty());
            assert(recs_view(out@) =~= eq_records_spec(suffix));
        }
        return out;
    }
    let mut i = start;
    while i < n && !(text.get_char(i) == '\n')
        invariant
            start <= i <= n,
            n == text@.len(),
            forall|j: int| start <= j < i ==> text@[j] != '\n',
        decreases n - i,
    {
        i += 1;
    }
    proof {
        assert(suffix.len() == n - start);
        assert forall|j: int| 0 <= j < i - start implies suffix[j] != '\n' by {
            assert(suffix[j] == text@[start + j]);
        }
        if i < n {
            assert(suffix[i - start] == text@[i as int]);
        }
        lemma_first_nl_at(suffix, i - start as int);
    }
    if i == n {
        let seg = text.substring_char(start, n);
        let mut st = String::from_str(seg);
        st.append("\n");
        let mut out: Vec<DiffRecord> = Vec::new();
        out.push(DiffRecord { tag: ChangeTag::Equal, text: st });
        proof {
            reveal_strlit("\n");
            assert(seg@ =~= suffix);
            assert("\n"@ =~= seq!['\n']);
            assert(suffix.last() != '\n');
            assert(lines_of(suffix) == seq![suffix]);
            assert(out@[0]@ == (ChangeTag::Equal, suffix + seq!['\n']));
            assert(recs_view(out@) =~= eq_records_spec(suffix)) by {
                assert(eq_records_spec(suffix)[0] == (ChangeTag::Equal, terminated(
                    seq![suffix][0],
                )));
                assert(terminated(suffix) == suffix + seq!['\n']);
                assert(recs_view(out@)[0] == out@[0]@);
            };
        }
        return out;
    }
    let seg = text.substring_char(start, i + 1);
    let head_rec = DiffRecord { tag: ChangeTag::Equal, text: String::from_str(seg) };
    let mut rest = equal_records_from(text, i + 1);
    let ghost rest0 = rest@;
    rest.insert(0, head_rec);
    proof {
        let ghost head = text@.subrange(start as int, i + 1);
        assert(seg@ =~= head);
        assert(suffix.take(i - start + 1) =~= head);
        assert(suffix.skip(i - start + 1) =~= text@.skip(i + 1));
        assert(head.last() == text@[i as int]);
        assert(lines_of(suffix) == seq![head] + lines_of(text@.skip(i + 1)));
        assert(terminated(head) == head);
        assert(rest@ =~= seq![head_rec] + rest0);
        assert(recs_view(rest@) =~= eq_records_spec(suffix)) by {
            let lhs = recs_view(rest@);
            let rhs = eq_records_spec(suffix);
            assert(rhs.len() == lines_of(suffix).len());
            assert(lhs.len() == rest@.len());
            assert(recs_view(rest0) == eq_records_spec(text@.skip(i + 1)));
            assert(recs_view(rest0).len() == rest0.len());
            assert(eq_records_spec(text@.skip(i + 1)).len() == lines_of(
                text@.skip(i + 1),
            ).len());
            assert(lines_of(suffix).len() == 1 + lines_of(text@.skip(i + 1)).len());
            assert(lhs.len() == rhs.len());
            assert forall|k: int| 0 <= k < lhs.len() implies lhs[k] == rhs[k] by {
                assert(lhs[k] == rest@[k]@);
                assert(rhs[k] == (ChangeTag::Equal, terminated(lines_of(suffix)[k])));
                if k == 0 {
                    assert(rest@[0]@ == (ChangeTag::Equal, head));
                    assert(lines_of(suffix)[0] == head);
                } else {
                    assert(rest@[k] == rest0[k - 1]);
                    assert(recs_view(rest0)[k - 1] == rest0[k - 1]@);
                    assert(eq_records_spec(text@.skip(i + 1))[k - 1] == (ChangeTag::Equal,
                    terminated(lines_of(text@.skip(i + 1))[k - 1])));
                    assert(lines_of(suffix)[k] == lines_of(text@.skip(i + 1))[k - 1]);
                }
            }
        };
    }
    rest
}

/// A line diff between an old and a new text.
#[derive(Debug, PartialEq)]
pub struct TextDiff {
    /// The diff's lines, in order
    pub changes: Vec<DiffRecord>,
}

impl TextDiff {
    /// The line diff of the two texts. Byte-identical texts diff to their
    /// own lines, all equal; otherwise the line-diff primitive decides.
    pub fn from_lines(old_text: &str, new_text: &str) -> (r: TextDiff)
        ensures
            recs_view(r.changes@) == diff_records_of(old_text@, new_text@),
    {
        if crate::utils::str_eq(old_text, new_text) {
            let changes = equal_records_from(old_text, 0);
            proof {
                assert(old_text@.skip(0) =~= old_text@);
            }
            TextDiff { changes }
        } else {
            TextDiff { changes: diff_lines(old_text, new_text) }
        }
    }
}

/// Diff inspection: whether anything changed, and the gap-compressed
/// rendering for display.
pub trait DiffAnalysis {
    /// The diff lines this value stands for.
    spec fn records(&self) -> Seq<(ChangeTag, Seq<char>)>;

    /// Determine if there are any changes in the diff.
    fn any_changes(&self) -> (r: bool)
        ensures
            r == has_changes(self.records()),
    ;

    /// Get a String representation of the diff for display.
    fn to_string(&self) -> (r: String)
        ensures
            r@ == render_diff_spec(self.records()),
    ;
}

impl DiffAnalysis for TextDiff {
    open spec fn records(&self) -> Seq<(ChangeTag, Seq<char>)> {
        recs_view(self.changes@)
    }

    fn any_changes(&self) -> (r: bool) {
        let ghost s = recs_view(self.changes@);
        let mut i: usize = 0;
        while i < self.changes.len()
            invariant
                i <= self.changes@.len(),
                s == recs_view(self.changes@),
                s.len() == self.changes@.len(),
                forall|j: int| 0 <= j < i ==> !is_change((#[trigger] s[j]).0),
            decreases self.changes@.len() - i,
        {
            proof {
                assert(s[i as int] == self.changes@[i as int]@);
            }
            if !(matches!(self.changes[i].tag, ChangeTag::Equal)) {
                proof {
                    assert(is_change(s[i as int].0));
                }
                return true;
            }
            i += 1;
        }
        false
    }

    fn to_string(&self) -> (r: String) {
        render_diff(&self.changes)
    }
}

/// The decimal rendering of one digit.
fn digit_string(d: u128) -> (r: String)
    requires
        d < 10,
    ensures
        r@ == digit_str(d as nat),
{
    match d {
        0 => String::from_str("0"),
        1 => String::from_str("1"),
        2 => String::from_str("2"),
        3 => String::from_str("3"),
        4 => String::from_str("4"),
        5 => String::from_str("5"),
        6 => String::from_str("6"),
        7 => String::from_str("7"),
        8 => String::from_str("8"),
        _ => String::from_str("9"),
    }
}

/// The decimal rendering of a number.
pub fn num_to_string(n: u128) -> (r: String)
    ensures
        r@ == dec_str(n as nat),
    decreases n,
{
    if n < 10 {
        digit_string(n)
    } else {
        let mut s = num_to_string(n / 10);
        let d = digit_string(n % 10);
        s.append(d.as_str());
        s
    }
}

/// The final counter values and whether any line changed.
fn scan_counts(changes: &Vec<DiffRecord>) -> (r: (u128, u128, bool))
    ensures
        r.0 == old_before(recs_view(changes@), changes@.len() as int),
        r.1 == new_before(recs_view(changes@), changes@.len() as int),
        r.2 == has_changes(recs_view(changes@)),
        r.0 <= changes@.len(),
        r.1 <= changes@.len(),
{
    let ghost s = recs_view(changes@);
    let mut oc: u128 = 0;
    let mut nc: u128 = 0;
    let mut any = false;
    let mut i: usize = 0;
    while i < changes.len()
        invariant
            i <= changes@.len(),
            s == recs_view(changes@),
            s.len() == changes@.len(),
            oc == old_before(s, i as int),
            nc == new_before(s, i as int),
            oc <= i as u128,
            nc <= i as u128,
            any == exists|j: int| 0 <= j < i && is_change((#[trigger] s[j]).0),
        decreases changes@.len() - i,
    {
        proof {
            assert(s[i as int] == changes@[i as int]@);
        }
        match changes[i].tag {
            ChangeTag::Insert => {
                nc += 1;
                any = true;
            },
            ChangeTag::Delete => {
                oc += 1;
                any = true;
            },
            ChangeTag::Equal => {
                oc += 1;
                nc += 1;
            },
        }
        proof {
            if is_change(s[i as int].0) {
                assert(exists|j: int| 0 <= j < i + 1 && is_change((#[trigger] s[j]).0));
            }
        }
        i += 1;
    }
    (oc, nc, any)
}

/// For each line, whether it is displayed.
fn compute_shown(changes: &Vec<DiffRecord>) -> (r: Vec<bool>)
    ensures
        r@.len() == changes@.len(),
        forall|i: int| 0 <= i < changes@.len() ==> r@[i] == shown(recs_view(changes@), i),
{
    let ghost s = recs_view(changes@);
    let n = changes.len();
    let mut fwd: Vec<bool> = Vec::new();
    let mut lc: Option<usize> = None;
    let mut i: usize = 0;
    while i < n
        invariant
            i <= n,
            n == changes@.len(),
            s == recs_view(changes@),
            s.len() == n,
            fwd@.len() == i,
            match lc {
                None => forall|j: int| 0 <= j < i ==> !is_change((#[trigger] s[j]).0),
                Some(k) => k < i && is_change(s[k as int].0) && forall|j: int|
                    k < j < i ==> !is_change((#[trigger] s[j]).0),
            },
            forall|j: int| 0 <= j < i ==> #[trigger] fwd@[j] == shown_by_earlier(s, j),
        decreases n - i,
    {
        proof {
            assert(s[i as int] == changes@[i as int]@);
        }
        let ch = !(matches!(changes[i].tag, ChangeTag::Equal));
        let eff: Option<usize> = if ch {
            Some(i)
        } else {
            lc
        };
        let flag = match eff {
            Some(k) => i - k <= DIFF_GAP_BUFFER_SIZE,
            None => false,
        };
        proof {
            match eff {
                None => {
                    if shown_by_earlier(s, i as int) {
                        let j = choose|j: int|
                            0 <= j <= i as int && j < s.len() && is_change(s[j].0) && i as int - j
                                <= (DIFF_GAP_BUFFER_SIZE as int);
                        assert(false);
                    }
                },
                Some(k) => {
                    if i - k <= DIFF_GAP_BUFFER_SIZE {
                        assert(shown_by_earlier(s, i as int));
                    } else {
                        if shown_by_earlier(s, i as int) {
                            let j = choose|j: int|
                                0 <= j <= i as int && j < s.len() && is_change(s[j].0) && i as int
                                    - j <= (DIFF_GAP_BUFFER_SIZE as int);
                            assert(j > k as int);
                            assert(false);
                        }
                    }
                },
            }
            assert(flag == shown_by_earlier(s, i as int));
        }
        fwd.push(flag);
        lc = eff;
        i += 1;
    }
    let mut bwd_rev: Vec<bool> = Vec::new();
    let mut nxt: Option<usize> = None;
    let mut t: usize = 0;
    while t < n
        invariant
            t <= n,
            n == changes@.len(),
            s == recs_view(changes@),
            s.len() == n,
            bwd_rev@.len() == t,
            match nxt {
                None => forall|j: int| n - t <= j < n ==> !is_change((#[trigger] s[j]).0),
                Some(k) => n - t <= k < n && is_change(s[k as int].0) && forall|j: int|
                    n - t <= j < k ==> !is_change((#[trigger] s[j]).0),
            },
            forall|u: int| 0 <= u < t ==> #[trigger] bwd_rev@[u] == shown_by_later(s, n - 1 - u),
        decreases n - t,
    {
        let i2 = n - 1 - t;
        proof {
            assert(s[i2 as int] == changes@[i2 as int]@);
        }
        let ch = !(matches!(changes[i2].tag, ChangeTag::Equal));
        let eff: Option<usize> = if ch {
            Some(i2)
        } else {
            nxt
        };
        let flag = match eff {
            Some(k) => k - i2 <= DIFF_GAP_BUFFER_SIZE,
            None => false,
        };
        proof {
            match eff {
                None => {
                    if shown_by_later(s, i2 as int) {
                        let j = choose|j: int|
                            i2 as int <= j < s.len() && 0 <= j && is_change(s[j].0) && j - i2 as int
                                <= (DIFF_GAP_BUFFER_SIZE as int);
                        assert(false);
                    }
                },
                Some(k) => {
                    if k - i2 <= DIFF_GAP_BUFFER_SIZE {
                        assert(shown_by_later(s, i2 as int));
                    } else {
                        if shown_by_later(s, i2 as int) {
                            let j = choose|j: int|
                                i2 as int <= j < s.len() && 0 <= j && is_change(s[j].0) && j
                                    - i2 as int <= (DIFF_GAP_BUFFER_SIZE as int);
                            assert(j < k as int);
                            assert(false);
                        }
                    }
                },
            }
            assert(flag == shown_by_later(s, i2 as int));
        }
        bwd_rev.push(flag);
        nxt = eff;
        t += 1;
    }
    let mut out: Vec<bool> = Vec::new();
    let mut i: usize = 0;
    while i < n
        invariant
            i <= n,
            n == changes@.len(),
            s == recs_view(changes@),
            s.len() == n,
            fwd@.len() == n,
            bwd_rev@.len() == n,
            forall|j: int| 0 <= j < n ==> #[trigger] fwd@[j] == shown_by_earlier(s, j),
            forall|u: int| 0 <= u < n ==> #[trigger] bwd_rev@[u] == shown_by_later(s, n - 1 - u),
            out@.len() == i,
            forall|j: int| 0 <= j < i ==> #[trigger] out@[j] == shown(s, j),
        decreases n - i,
    {
        let flag = fwd[i] || bwd_rev[n - 1 - i];
        proof {
            lemma_shown_split(s, i as int);
            assert(bwd_rev@[n - 1 - i as int] == shown_by_later(s, n - 1 - (n - 1 - i as int)));
        }
        out.push(flag);
        i += 1;
    }
    out
}

/// Append `numstr` right-aligned in a field of width `w`.
fn append_padded(out: &mut String, numstr: &String, w: usize)
    ensures
        final(out)@ == old(out)@ + pad_left(numstr@, w as nat),
{
    let len = numstr.as_str().unicode_len();
    if len < w {
        let ghost out0 = out@;
        let mut p: usize = 0;
        proof {
            assert(out@ =~= out0 + spaces(0));
        }
        while p < w - len
            invariant
                len < w,
                len == numstr@.len(),
                p <= w - len,
                out@ == out0 + spaces(p as nat),
            decreases w - len - p,
        {
            out.append(" ");
            p += 1;
        }
        out.append(numstr.as_str());
        proof {
            assert(out@ =~= out0 + (spaces((w - len) as nat) + numstr@));
        }
    } else {
        out.append(numstr.as_str());
    }
}

/// The displayed form of line `i`, given the counter values reached.
fn render_line(changes: &Vec<DiffRecord>, i: usize, oc: u128, nc: u128, w: usize) -> (r: String)
    requires
        i < changes@.len(),
        oc == old_before(recs_view(changes@), i as int),
        nc == new_before(recs_view(changes@), i as int),
        oc < u128::MAX,
        nc < u128::MAX,
    ensures
        r@ == line_str(recs_view(changes@), i as int, w as nat),
{
    let ghost s = recs_view(changes@);
    proof {
        assert(s[i as int] == changes@[i as int]@);
    }
    let tag = changes[i].tag;
    let mut out = match tag {
        ChangeTag::Insert => String::from_str("+"),
        ChangeTag::Delete => String::from_str("-"),
        ChangeTag::Equal => String::from_str(" "),
    };
    out.append(" ");
    let old_num = if !(matches!(tag, ChangeTag::Insert)) {
        num_to_string(oc + 1)
    } else {
        String::new()
    };
    append_padded(&mut out, &old_num, w);
    out.append(" ");
    let new_num = if !(matches!(tag, ChangeTag::Delete)) {
        num_to_string(nc + 1)
    } else {
        String::new()
    };
    append_padded(&mut out, &new_num, w);
    out.append(" | ");
    out.append(changes[i].text.as_str());
    out
}

/// Exactly the lines between two boundaries form one hidden run.
proof fn lemma_hidden_run_exact(s: Seq<(ChangeTag, Seq<char>)>, a: int, b: int)
    requires
        0 <= a <= b <= s.len(),
        forall|j: int| a <= j < b ==> !shown(s, j),
        b == s.len() || shown(s, b),
    ensures
        hidden_run(s, a) == b - a,
    decreases b - a,
{
    if a < b {
        lemma_hidden_run_exact(s, a + 1, b);
    }
}

/// The gap-compressed rendering of a diff.
fn render_diff(changes: &Vec<DiffRecord>) -> (r: String)
    ensures
        r@ == render_diff_spec(recs_view(changes@)),
{
    let ghost s = recs_view(changes@);
    proof {
        assert(s.len() == changes@.len());
    }
    let n = changes.len();
    let counts = scan_counts(changes);
    if !counts.2 {
        let mut out = num_to_string(n as u128);
        out.append(" lines, no changes detected\n");
        return out;
    }
    let os = num_to_string(counts.0 + 1);
    let ns = num_to_string(counts.1 + 1);
    let ol = os.as_str().unicode_len();
    let nl = ns.as_str().unicode_len();
    let w = if ol >= nl {
        ol
    } else {
        nl
    };
    proof {
        assert(w as nat == width_of(s));
    }
    let flags = compute_shown(changes);
    let mut out = String::new();
    let mut oc: u128 = 0;
    let mut nc: u128 = 0;
    let mut i: usize = 0;
    proof {
        assert(out@ + render_from(s, 0, w as nat) =~= render_from(s, 0, w as nat));
    }
    while i < n
        invariant
            i <= n,
            n == changes@.len(),
            s == recs_view(changes@),
            s.len() == n,
            w as nat == width_of(s),
            flags@.len() == n,
            forall|j: int| 0 <= j < n ==> #[trigger] flags@[j] == shown(s, j),
            oc == old_before(s, i as int),
            nc == new_before(s, i as int),
            oc <= i as u128,
            nc <= i as u128,
            render_from(s, 0, w as nat) == out@ + render_from(s, i as int, w as nat),
        decreases n - i,
    {
        proof {
            assert(s[i as int] == changes@[i as int]@);
        }
        if flags[i] {
            let line = render_line(changes, i, oc, nc, w);
            let ghost out0 = out@;
            out.append(line.as_str());
            proof {
                assert(out@ =~= out0 + line@);
                assert(render_from(s, i as int, w as nat) == line_str(s, i as int, w as nat)
                    + render_from(s, i as int + 1, w as nat));
                assert(out0 + (line_str(s, i as int, w as nat) + render_from(
                    s,
                    i as int + 1,
                    w as nat,
                )) =~= out@ + render_from(s, i as int + 1, w as nat));
            }
            match changes[i].tag {
                ChangeTag::Insert => {
                    nc += 1;
                },
                ChangeTag::Delete => {
                    oc += 1;
                },
                ChangeTag::Equal => {
                    oc += 1;
                    nc += 1;
                },
            }
            i += 1;
        } else {
            let start = i;
            while i < n && !flags[i]
                invariant
                    start <= i <= n,
                    n == changes@.len(),
                    s == recs_view(changes@),
                    s.len() == n,
                    flags@.len() == n,
                    forall|j: int| 0 <= j < n ==> #[trigger] flags@[j] == shown(s, j),
                    forall|j: int| start <= j < i ==> !shown(s, j),
                    oc == old_before(s, i as int),
                    nc == new_before(s, i as int),
                    oc <= i as u128,
                    nc <= i as u128,
                decreases n - i,
            {
                proof {
                    assert(s[i as int] == changes@[i as int]@);
                }
                match changes[i].tag {
                    ChangeTag::Insert => {
                        nc += 1;
                    },
                    ChangeTag::Delete => {
                        oc += 1;
                    },
                    ChangeTag::Equal => {
                        oc += 1;
                        nc += 1;
                    },
                }
                i += 1;
            }
            proof {
                lemma_hidden_run_exact(s, start as int, i as int);
            }
            let num = num_to_string((i - start) as u128);
            let ghost out0 = out@;
            out.append("\n... ");
            out.append(num.as_str());
            out.append(" unchanged lines\n\n");
            proof {
                assert(out@ =~= out0 + gap_str((i - start) as nat));
                assert(render_from(s, start as int, w as nat) == gap_str((i - start) as nat)
                    + render_from(s, i as int, w as nat));
                assert(out0 + (gap_str((i - start) as nat) + render_from(s, i as int, w as nat))
                    =~= out@ + render_from(s, i as int, w as nat));
            }
        }
    }
    proof {
        assert(render_from(s, n as int, w as nat) =~= Seq::<char>::empty());
        assert(out@ + Seq::<char>::empty() =~= out@);
    }
    out
}

} // verus!
