//! The per-file rewriter: takes a file's lines one at a time, hands back
//! each line with the target replaced, and counts the lines that changed.
use vstd::prelude::*;

use vstd::slice::slice_to_vec;

use crate::text::{contains, line_contains, occurs_at, replace_all, replace_line};

verus! {

/// How many of `lines` contain `n` at least once.
pub open spec fn changed_lines(lines: Seq<Seq<u8>>, n: Seq<u8>) -> nat
    decreases lines.len(),
{
    if lines.len() == 0 {
        0
    } else {
        changed_lines(lines.drop_last(), n) + if contains(lines.last(), n) {
            1nat
        } else {
            0nat
        }
    }
}

/// The bytes written for `lines`: each line with `n` replaced by `r`, in order.
pub open spec fn rewritten(lines: Seq<Seq<u8>>, n: Seq<u8>, r: Seq<u8>) -> Seq<u8>
    decreases lines.len(),
{
    if lines.len() == 0 {
        Seq::empty()
    } else {
        rewritten(lines.drop_last(), n, r) + replace_all(lines.last(), n, r)
    }
}

/// The bytes of `lines` written one after the other.
pub open spec fn joined(lines: Seq<Seq<u8>>) -> Seq<u8>
    decreases lines.len(),
{
    if lines.len() == 0 {
        Seq::empty()
    } else {
        joined(lines.drop_last()) + lines.last()
    }
}

/// What became of one file once all its lines went through the rewriter.
pub enum FileOutcome {
    /// No line held the needle: the file is left in place as it was.
    Unchanged,
    /// This many lines held the needle: the rewritten copy replaces the file.
    Rewritten(u64),
}

/// Rewrites the lines of one file as they are read, one at a time.
pub struct LineRewriter {
    needle: Vec<u8>,
    replacement: Vec<u8>,
    lines_changed: u64,
    seen: Ghost<Seq<Seq<u8>>>,
}

impl LineRewriter {
    /// The byte string searched for.
    pub closed spec fn needle_spec(&self) -> Seq<u8> {
        self.needle@
    }

    /// The byte string put in its place.
    pub closed spec fn replacement_spec(&self) -> Seq<u8> {
        self.replacement@
    }

    /// The lines handed in so far, in order.
    pub closed spec fn lines_spec(&self) -> Seq<Seq<u8>> {
        self.seen@
    }

    /// The needle is not empty and the counter agrees with the lines seen.
    pub closed spec fn well_formed(&self) -> bool {
        &&& self.needle@.len() > 0
        &&& self.lines_changed as nat == changed_lines(self.seen@, self.needle@)
    }

    /// A rewriter that has seen no line yet.
    pub fn new(needle: &[u8], replacement: &[u8]) -> (r: LineRewriter)
        requires
            needle@.len() > 0,
        ensures
            r.well_formed(),
            r.needle_spec() == needle@,
            r.replacement_spec() == replacement@,
            r.lines_spec() == Seq::<Seq<u8>>::empty(),
    {
        LineRewriter {
            needle: slice_to_vec(needle),
            replacement: slice_to_vec(replacement),
            lines_changed: 0,
            seen: Ghost(Seq::empty()),
        }
    }

    /// How many of the lines seen so far contained the needle.
    pub fn lines_changed(&self) -> (c: u64)
        requires
            self.well_formed(),
        ensures
            c as nat == changed_lines(self.lines_spec(), self.needle_spec()),
    {
        self.lines_changed
    }

    /// Whether the rewritten copy is to replace the file, and how many
    /// lines changed. A file with no changed line is never replaced.
    pub fn outcome(&self) -> (o: FileOutcome)
        requires
            self.well_formed(),
        ensures
            match o {
                FileOutcome::Unchanged => changed_lines(self.lines_spec(), self.needle_spec()) == 0,
                FileOutcome::Rewritten(c) => c > 0 && c as nat == changed_lines(
                    self.lines_spec(),
                    self.needle_spec(),
                ),
            },
    {
        if self.lines_changed == 0 {
            FileOutcome::Unchanged
        } else {
            FileOutcome::Rewritten(self.lines_changed)
        }
    }

    /// Takes the next line, terminator included, and returns what is to be
    /// written in its place: the line with every occurrence of the needle
    /// replaced. A line without the needle comes back as it was.
    pub fn rewrite_line(&mut self, line: &[u8]) -> (out: Vec<u8>)
        requires
            old(self).well_formed(),
            changed_lines(old(self).lines_spec(), old(self).needle_spec()) < u64::MAX,
        ensures
            final(self).well_formed(),
            final(self).needle_spec() == old(self).needle_spec(),
            final(self).replacement_spec() == old(self).replacement_spec(),
            final(self).lines_spec() == old(self).lines_spec().push(line@),
            out@ == replace_all(line@, old(self).needle_spec(), old(self).replacement_spec()),
    {
        let hit = line_contains(line, self.needle.as_slice());
        let out = if hit {
            replace_line(line, self.needle.as_slice(), self.replacement.as_slice())
        } else {
            proof {
                lemma_no_match_unchanged(line@, self.needle@, self.replacement@);
            }
            slice_to_vec(line)
        };
        let ghost prev = self.seen@;
        if hit {
            self.lines_changed = self.lines_changed + 1;
        }
        self.seen = Ghost(prev.push(line@));
        assert(self.seen@.drop_last() =~= prev);
        out
    }
}

/// A line in which the needle does not occur is left as it is by the
/// replacement.
pub proof fn lemma_no_match_unchanged(s: Seq<u8>, n: Seq<u8>, r: Seq<u8>)
    requires
        !contains(s, n),
    ensures
        replace_all(s, n, r) == s,
    decreases s.len(),
{
    if n.len() == 0 || s.len() < n.len() {
    } else {
        assert(!occurs_at(s, n, 0));
        let t = s.subrange(1, s.len() as int);
        assert forall|i: int| !occurs_at(t, n, i) by {
            if occurs_at(t, n, i) {
                assert(s.subrange(i + 1, i + 1 + n.len()) =~= t.subrange(i, i + n.len()));
                assert(occurs_at(s, n, i + 1));
            }
        }
        lemma_no_match_unchanged(t, n, r);
        assert(s =~= seq![s[0]] + t);
    }
}

/// `b` is not among the bytes of `s`.
pub open spec fn free_of(s: Seq<u8>, b: u8) -> bool {
    forall|i: int| 0 <= i < s.len() ==> s[i] != b
}

/// A one-byte needle occurs exactly where its byte does.
proof fn lemma_single_byte_contains(s: Seq<u8>, n: Seq<u8>)
    requires
        n.len() == 1,
    ensures
        contains(s, n) <==> !free_of(s, n[0]),
{
    if contains(s, n) {
        let i = choose|i: int| occurs_at(s, n, i);
        assert(s.subrange(i, i + 1)[0] == s[i]);
    }
    if !free_of(s, n[0]) {
        let i = choose|i: int| 0 <= i < s.len() && s[i] == n[0];
        assert(s.subrange(i, i + 1) =~= n);
        assert(occurs_at(s, n, i));
    }
}

/// Replacing a one-byte needle by a string that lacks it leaves no trace
/// of the needle.
proof fn lemma_single_byte_replaced(s: Seq<u8>, n: Seq<u8>, r: Seq<u8>)
    requires
        n.len() == 1,
        free_of(r, n[0]),
    ensures
        free_of(replace_all(s, n, r), n[0]),
    decreases s.len(),
{
    if s.len() < n.len() {
    } else {
        let t = replace_all(s, n, r);
        if s.subrange(0, 1) == n {
            let rest = s.subrange(1, s.len() as int);
            lemma_single_byte_replaced(rest, n, r);
            assert(t == r + replace_all(rest, n, r));
        } else {
            let rest = s.subrange(1, s.len() as int);
            lemma_single_byte_replaced(rest, n, r);
            assert(s.subrange(0, 1)[0] == s[0]);
            assert(s[0] != n[0]) by {
                if s[0] == n[0] {
                    assert(s.subrange(0, 1) =~= n);
                }
            }
            assert(t == seq![s[0]] + replace_all(rest, n, r));
        }
    }
}

/// A byte missing from a file is missing from each of its lines.
proof fn lemma_joined_free_of(lines: Seq<Seq<u8>>, b: u8, k: int)
    requires
        free_of(joined(lines), b),
        0 <= k < lines.len(),
    ensures
        free_of(lines[k], b),
    decreases lines.len(),
{
    let init = lines.drop_last();
    let head = joined(init);
    assert(joined(lines) == head + lines.last());
    assert forall|i: int| 0 <= i < head.len() implies head[i] != b by {
        assert(joined(lines)[i] == head[i]);
    }
    if k < lines.len() - 1 {
        lemma_joined_free_of(init, b, k);
    } else {
        assert forall|i: int| 0 <= i < lines[k].len() implies lines[k][i] != b by {
            assert(joined(lines)[head.len() + i] == lines.last()[i]);
        }
    }
}

/// A file none of whose lines holds the needle has no changed line, and
/// the bytes written for it are the bytes read.
pub proof fn lemma_file_without_match_unchanged(lines: Seq<Seq<u8>>, n: Seq<u8>, r: Seq<u8>)
    requires
        forall|i: int| 0 <= i < lines.len() ==> !contains(#[trigger] lines[i], n),
    ensures
        changed_lines(lines, n) == 0,
        rewritten(lines, n, r) == joined(lines),
    decreases lines.len(),
{
    if lines.len() > 0 {
        let init = lines.drop_last();
        assert forall|i: int| 0 <= i < init.len() implies !contains(#[trigger] init[i], n) by {
            assert(init[i] == lines[i]);
        }
        lemma_file_without_match_unchanged(init, n, r);
        assert(!contains(lines[lines.len() - 1], n));
        lemma_no_match_unchanged(lines.last(), n, r);
    }
}

/// A file has a changed line exactly when one of its lines holds the needle.
pub proof fn lemma_changed_iff_match(lines: Seq<Seq<u8>>, n: Seq<u8>)
    ensures
        changed_lines(lines, n) > 0 <==> exists|i: int|
            0 <= i < lines.len() && contains(#[trigger] lines[i], n),
    decreases lines.len(),
{
    if lines.len() > 0 {
        let init = lines.drop_last();
        lemma_changed_iff_match(init, n);
        if exists|i: int| 0 <= i < init.len() && contains(#[trigger] init[i], n) {
            let i = choose|i: int| 0 <= i < init.len() && contains(#[trigger] init[i], n);
            assert(lines[i] == init[i]);
        }
        if exists|i: int| 0 <= i < lines.len() && contains(#[trigger] lines[i], n) {
            let i = choose|i: int| 0 <= i < lines.len() && contains(#[trigger] lines[i], n);
            if i < init.len() {
                assert(lines[i] == init[i]);
            }
        }
    }
}

/// Running the rewrite a second time over its own output changes nothing,
/// however that output is cut into lines, when the needle is a single byte
/// and the replacement does not hold it.
pub proof fn lemma_second_run_no_op(
    lines: Seq<Seq<u8>>,
    n: Seq<u8>,
    r: Seq<u8>,
    again: Seq<Seq<u8>>,
)
    requires
        n.len() == 1,
        !contains(r, n),
        joined(again) == rewritten(lines, n, r),
    ensures
        changed_lines(again, n) == 0,
        rewritten(again, n, r) == joined(again),
{
    lemma_single_byte_contains(r, n);
    lemma_rewritten_free_of(lines, n, r);
    assert forall|i: int| 0 <= i < again.len() implies !contains(#[trigger] again[i], n) by {
        lemma_joined_free_of(again, n[0], i);
        lemma_single_byte_contains(again[i], n);
    }
    lemma_file_without_match_unchanged(again, n, r);
}

/// The output of a rewrite with a one-byte needle, over a replacement that
/// lacks it, lacks it too.
proof fn lemma_rewritten_free_of(lines: Seq<Seq<u8>>, n: Seq<u8>, r: Seq<u8>)
    requires
        n.len() == 1,
        free_of(r, n[0]),
    ensures
        free_of(rewritten(lines, n, r), n[0]),
    decreases lines.len(),
{
    if lines.len() > 0 {
        let init = lines.drop_last();
        lemma_rewritten_free_of(init, n, r);
        lemma_single_byte_replaced(lines.last(), n, r);
        let a = rewritten(init, n, r);
        let b = replace_all(lines.last(), n, r);
        assert forall|i: int| 0 <= i < (a + b).len() implies (a + b)[i] != n[0] by {
            if i >= a.len() {
                assert((a + b)[i] == b[i - a.len()]);
            }
        }
    }
}

} // verus!
