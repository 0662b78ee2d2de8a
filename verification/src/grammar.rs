//! Grammar primitives on byte slices.
//!
//! The three leaf matchers (`tag`, `take_till`, `line_ending`) are those of
//! the `nom` crate; their behaviour is assumed as stated on each of them.
//! Everything that composes them is proved.

use vstd::prelude::*;

verus! {

/// `nom::Err`, the failure of a `nom` parser. Nothing is assumed of its
/// contents: the matchers below are only asked whether they failed.
#[verifier::external_type_specification]
#[verifier::external_body]
#[verifier::reject_recursive_types(E)]
pub struct ExNomErr<E>(nom::Err<E>);

/// `nom::error::Error`, what a failed `nom` parser reports. Nothing is
/// assumed of its contents.
#[verifier::external_type_specification]
#[verifier::external_body]
#[verifier::reject_recursive_types(I)]
pub struct ExNomError<I>(nom::error::Error<I>);

/// `/`
pub const SLASH: u8 = 0x2f;

/// A space.
pub const SPACE: u8 = 0x20;

/// `:`
pub const COLON: u8 = 0x3a;

/// Carriage return.
pub const CR: u8 = 0x0d;

/// Line feed.
pub const LF: u8 = 0x0a;

/// A set of bytes at which a run of input stops.
#[derive(Clone, Copy, Debug, PartialEq, Eq)]
pub enum StopSet {
    /// `/` or a space: the end of a path segment.
    SegmentEnd,
    /// `:`, carriage return or line feed: the end of a header name.
    NameEnd,
    /// Carriage return or line feed: the end of a header value.
    LineEnd,
}

impl StopSet {
    /// Whether `b` belongs to the set.
    pub open spec fn holds(self, b: u8) -> bool {
        match self {
            StopSet::SegmentEnd => b == SLASH || b == SPACE,
            StopSet::NameEnd => b == COLON || b == CR || b == LF,
            StopSet::LineEnd => b == CR || b == LF,
        }
    }

    /// Executable membership test.
    pub fn contains(self, b: u8) -> (r: bool)
        ensures
            r == self.holds(b),
    {
        match self {
            StopSet::SegmentEnd => b == SLASH || b == SPACE,
            StopSet::NameEnd => b == COLON || b == CR || b == LF,
            StopSet::LineEnd => b == CR || b == LF,
        }
    }
}

/// Length of the longest prefix of `s` that holds no byte of `stop`.
pub open spec fn run_len(stop: StopSet, s: Seq<u8>) -> int
    decreases s.len(),
{
    if s.len() == 0 || stop.holds(s[0]) {
        0
    } else {
        1 + run_len(stop, s.skip(1))
    }
}

/// Length of the line ending at the head of `s`: 1 for a line feed, 2 for
/// carriage return and line feed, 0 when `s` starts with neither.
pub open spec fn eol_len(s: Seq<u8>) -> int {
    if s.len() >= 1 && s[0] == LF {
        1
    } else if s.len() >= 2 && s[0] == CR && s[1] == LF {
        2
    } else {
        0
    }
}

/// What is left of `s` behind all the line endings at its head.
pub open spec fn after_line_endings(s: Seq<u8>) -> Seq<u8>
    decreases s.len(),
{
    if eol_len(s) > 0 {
        after_line_endings(s.skip(eol_len(s)))
    } else {
        s
    }
}

/// Whether `s` is made of line endings and of nothing else.
pub open spec fn only_line_endings(s: Seq<u8>) -> bool {
    after_line_endings(s).len() == 0
}

/// The views of a sequence of slices.
pub open spec fn slice_views(v: Seq<&[u8]>) -> Seq<Seq<u8>> {
    Seq::new(v.len(), |i: int| v[i]@)
}

/// The views of a sequence of pairs of slices.
pub open spec fn pair_views(v: Seq<(&[u8], &[u8])>) -> Seq<(Seq<u8>, Seq<u8>)> {
    Seq::new(v.len(), |i: int| (v[i].0@, v[i].1@))
}

/// A run stays inside its input, holds no stop byte, and ends at a stop
/// byte or at the end of the input.
pub proof fn lemma_run_len(stop: StopSet, s: Seq<u8>)
    ensures
        0 <= run_len(stop, s) <= s.len(),
        forall|i: int| 0 <= i < run_len(stop, s) ==> !stop.holds(#[trigger] s[i]),
        run_len(stop, s) < s.len() ==> stop.holds(s[run_len(stop, s)]),
    decreases s.len(),
{
    if s.len() == 0 || stop.holds(s[0]) {
    } else {
        let t = s.skip(1);
        lemma_run_len(stop, t);
        assert forall|i: int| 0 <= i < run_len(stop, s) implies !stop.holds(#[trigger] s[i]) by {
            if i > 0 {
                assert(s[i] == t[i - 1]);
            }
        }
        assert(run_len(stop, s) < s.len() ==> s[run_len(stop, s)] == t[run_len(stop, t)]);
    }
}

/// The run is the only split of that kind: a position `k` in front of which
/// no stop byte stands, and which is the end of `s` or holds a stop byte, is
/// the length of the run.
pub proof fn lemma_run_len_unique(stop: StopSet, s: Seq<u8>, k: int)
    requires
        0 <= k <= s.len(),
        forall|i: int| 0 <= i < k ==> !stop.holds(#[trigger] s[i]),
        k < s.len() ==> stop.holds(s[k]),
    ensures
        run_len(stop, s) == k,
    decreases s.len(),
{
    if s.len() == 0 || stop.holds(s[0]) {
        if k > 0 {
            assert(!stop.holds(s[0]));
        }
    } else {
        let t = s.skip(1);
        assert forall|i: int| 0 <= i < k - 1 implies !stop.holds(#[trigger] t[i]) by {
            assert(t[i] == s[i + 1]);
        }
        lemma_run_len_unique(stop, t, k - 1);
    }
}

/// What stands behind the line endings at the head of an input is the end
/// of that input, and starts with no line ending.
pub proof fn lemma_after_line_endings(s: Seq<u8>)
    ensures
        after_line_endings(s).len() <= s.len(),
        after_line_endings(s) == s.skip(s.len() - after_line_endings(s).len()),
        eol_len(after_line_endings(s)) == 0,
        eol_len(s) > 0 ==> after_line_endings(s).len() < s.len(),
        eol_len(s) == 0 ==> after_line_endings(s) == s,
    decreases s.len(),
{
    if eol_len(s) > 0 {
        let t = s.skip(eol_len(s));
        lemma_after_line_endings(t);
        let r = after_line_endings(t);
        assert(r =~= s.skip(s.len() - r.len()));
    } else {
        assert(s.skip(0) =~= s);
    }
}

/// The line endings at the head of an input are made of line endings only.
pub proof fn lemma_line_endings_at_head(s: Seq<u8>)
    ensures
        after_line_endings(s).len() <= s.len(),
        only_line_endings(s.take(s.len() - after_line_endings(s).len())),
    decreases s.len(),
{
    let k = s.len() - after_line_endings(s).len();
    lemma_after_line_endings(s);
    if eol_len(s) > 0 {
        let e = eol_len(s);
        let t = s.skip(e);
        lemma_line_endings_at_head(t);
        lemma_after_line_endings(t);
        let head = s.take(k);
        assert(eol_len(head) == e);
        assert(head.skip(e) =~= t.take(k - e));
    } else {
        assert(s.take(0).len() == 0);
    }
}

/// `nom::bytes::complete::tag` on byte slices: succeeds exactly when `lit` is
/// a prefix of `input`, and then returns the input behind the prefix and the
/// prefix itself.
#[verifier::external_body]
pub(crate) fn tag<'a>(lit: &[u8], input: &'a [u8]) -> (r: Result<
    (&'a [u8], &'a [u8]),
    nom::Err<nom::error::Error<&'a [u8]>>,
>)
    ensures
        r is Ok <==> lit@.is_prefix_of(input@),
        r matches Ok((rest, hit)) ==> hit@ == lit@ && rest@ == input@.skip(lit@.len() as int),
{
    nom::bytes::complete::tag(lit)(input)
}

/// `nom::bytes::complete::take_till` on byte slices: never fails, and splits
/// `input` in front of its first byte that belongs to `stop` (at its end
/// when there is none), returning the part behind the split and the part
/// before it.
#[verifier::external_body]
pub(crate) fn take_till<'a>(stop: StopSet, input: &'a [u8]) -> (r: Result<
    (&'a [u8], &'a [u8]),
    nom::Err<nom::error::Error<&'a [u8]>>,
>)
    ensures
        r is Ok,
        r matches Ok((rest, run)) ==> {
            &&& run@ + rest@ == input@
            &&& forall|i: int| 0 <= i < run@.len() ==> !stop.holds(#[trigger] run@[i])
            &&& rest@.len() > 0 ==> stop.holds(rest@[0])
        },
{
    nom::bytes::complete::take_till(|b: u8| stop.contains(b))(input)
}

/// `nom::character::complete::line_ending` on byte slices: succeeds exactly
/// when `input` starts with a line feed or with carriage return and line
/// feed, and then returns the input behind that ending and the ending.
#[verifier::external_body]
pub(crate) fn line_ending<'a>(input: &'a [u8]) -> (r: Result<
    (&'a [u8], &'a [u8]),
    nom::Err<nom::error::Error<&'a [u8]>>,
>)
    ensures
        r is Ok <==> eol_len(input@) > 0,
        r matches Ok((rest, hit)) ==> hit@ == input@.take(eol_len(input@)) && rest@
            == input@.skip(eol_len(input@)),
{
    nom::character::complete::line_ending(input)
}

/// Matches the literal `lit` at the head of `input` and returns what follows
/// it, or `None` when `input` does not start with `lit`.
pub fn match_literal<'a>(lit: &[u8], input: &'a [u8]) -> (r: Option<&'a [u8]>)
    ensures
        r is Some <==> lit@.is_prefix_of(input@),
        r matches Some(rest) ==> rest@ == input@.skip(lit@.len() as int),
{
    match tag(lit, input) {
        Ok((rest, _hit)) => Some(rest),
        Err(_) => None,
    }
}

/// Splits `input` in front of its first byte of `stop`, or at its end when
/// it holds none. Returns what follows the split and the run before it.
pub fn take_run<'a>(stop: StopSet, input: &'a [u8]) -> (r: (&'a [u8], &'a [u8]))
    ensures
        r.1@ == input@.take(run_len(stop, input@)),
        r.0@ == input@.skip(run_len(stop, input@)),
{
    match take_till(stop, input) {
        Ok((rest, run)) => {
            proof {
                let k = run@.len() as int;
                assert(input@.len() == k + rest@.len());
                assert forall|i: int| 0 <= i < k implies !stop.holds(#[trigger] input@[i]) by {
                    assert(input@[i] == run@[i]);
                }
                if k < input@.len() {
                    assert(input@[k] == rest@[0]);
                }
                lemma_run_len_unique(stop, input@, k);
                assert(run@ =~= input@.take(k));
                assert(rest@ =~= input@.skip(k));
            }
            (rest, run)
        },
        Err(_) => vstd::pervasive::unreached(),
    }
}

/// Matches one line ending (a line feed, or carriage return and line feed)
/// at the head of `input` and returns what follows it.
pub fn match_line_ending<'a>(input: &'a [u8]) -> (r: Option<&'a [u8]>)
    ensures
        r is Some <==> eol_len(input@) > 0,
        r matches Some(rest) ==> rest@ == input@.skip(eol_len(input@)),
{
    match line_ending(input) {
        Ok((rest, _hit)) => Some(rest),
        Err(_) => None,
    }
}

/// Consumes every line ending at the head of `input` and returns what
/// follows them.
pub fn skip_line_endings<'a>(input: &'a [u8]) -> (rest: &'a [u8])
    ensures
        rest@ == after_line_endings(input@),
{
    let mut cur: &'a [u8] = input;
    loop
        invariant
            after_line_endings(cur@) == after_line_endings(input@),
        ensures
            cur@ == after_line_endings(input@),
        decreases cur@.len(),
    {
        match match_line_ending(cur) {
            Some(next) => {
                cur = next;
            },
            None => {
                break ;
            },
        }
    }
    cur
}

} // verus!
