//! Literal substring search and replacement on byte strings.
use vstd::prelude::*;

verus! {

/// `n` occurs in `s` starting at index `i`.
pub open spec fn occurs_at(s: Seq<u8>, n: Seq<u8>, i: int) -> bool {
    0 <= i && i + n.len() <= s.len() && s.subrange(i, i + n.len()) == n
}

/// `n` occurs somewhere in `s`.
pub open spec fn contains(s: Seq<u8>, n: Seq<u8>) -> bool {
    exists|i: int| occurs_at(s, n, i)
}

/// `s` with every occurrence of `n` replaced by `r`, scanning from the left
/// and never letting two replaced occurrences overlap.
pub open spec fn replace_all(s: Seq<u8>, n: Seq<u8>, r: Seq<u8>) -> Seq<u8>
    decreases s.len(),
{
    if n.len() == 0 || s.len() < n.len() {
        s
    } else if s.subrange(0, n.len() as int) == n {
        r + replace_all(s.subrange(n.len() as int, s.len() as int), n, r)
    } else {
        seq![s[0]] + replace_all(s.subrange(1, s.len() as int), n, r)
    }
}

/// Whether `n` occurs in `s` at index `i`.
fn matches_at(s: &[u8], n: &[u8], i: usize) -> (r: bool)
    requires
        i + n@.len() <= s@.len(),
    ensures
        r == occurs_at(s@, n@, i as int),
{
    let len: usize = s.len();
    let mut j: usize = 0;
    while j < n.len()
        invariant
            j <= n@.len(),
            i + n@.len() <= s@.len(),
            s@.len() == len,
            forall|k: int| 0 <= k < j ==> s@[i + k] == n@[k],
        decreases n@.len() - j,
    {
        if s[i + j] != n[j] {
            assert(s@.subrange(i as int, i + n@.len())[j as int] != n@[j as int]);
            return false;
        }
        j = j + 1;
    }
    assert(s@.subrange(i as int, i + n@.len()) =~= n@);
    true
}

/// Whether `needle` occurs in `line`.
pub fn line_contains(line: &[u8], needle: &[u8]) -> (r: bool)
    ensures
        r == contains(line@, needle@),
{
    if needle.len() > line.len() {
        return false;
    }
    let last: usize = line.len() - needle.len();
    let mut i: usize = 0;
    while i < last
        invariant
            last == line@.len() - needle@.len(),
            i <= last,
            forall|k: int| 0 <= k < i ==> !occurs_at(line@, needle@, k),
        decreases last - i,
    {
        if matches_at(line, needle, i) {
            return true;
        }
        i = i + 1;
    }
    matches_at(line, needle, last)
}

/// Unfolds `replace_all` on the suffix of `s` that starts at `i`.
proof fn lemma_replace_step(s: Seq<u8>, n: Seq<u8>, r: Seq<u8>, i: int)
    requires
        n.len() > 0,
        0 <= i < s.len(),
    ensures
        occurs_at(s, n, i) ==> replace_all(s.subrange(i, s.len() as int), n, r) == r
            + replace_all(s.subrange(i + n.len(), s.len() as int), n, r),
        !occurs_at(s, n, i) ==> replace_all(s.subrange(i, s.len() as int), n, r) == seq![s[i]]
            + replace_all(s.subrange(i + 1, s.len() as int), n, r),
{
    let t = s.subrange(i, s.len() as int);
    if i + n.len() <= s.len() {
        assert(t.subrange(0, n.len() as int) =~= s.subrange(i, i + n.len()));
        assert(t.subrange(n.len() as int, t.len() as int) =~= s.subrange(
            i + n.len(),
            s.len() as int,
        ));
    }
    assert(t.subrange(1, t.len() as int) =~= s.subrange(i + 1, s.len() as int));
    if t.len() < n.len() {
        let u = s.subrange(i + 1, s.len() as int);
        assert(replace_all(u, n, r) == u);
        assert(t =~= seq![s[i]] + u);
    }
}

/// `line` with every occurrence of `needle` replaced by `replacement`,
/// left to right, without overlaps.
pub fn replace_line(line: &[u8], needle: &[u8], replacement: &[u8]) -> (out: Vec<u8>)
    requires
        needle@.len() > 0,
    ensures
        out@ == replace_all(line@, needle@, replacement@),
{
    let len: usize = line.len();
    let mut out: Vec<u8> = Vec::new();
    let mut i: usize = 0;
    assert(line@.subrange(0, len as int) =~= line@);
    assert(out@ + replace_all(line@, needle@, replacement@) =~= replace_all(line@, needle@, replacement@));
    while i < len
        invariant
            len == line@.len(),
            needle@.len() > 0,
            i <= len,
            out@ + replace_all(line@.subrange(i as int, len as int), needle@, replacement@)
                == replace_all(line@, needle@, replacement@),
        decreases len - i,
    {
        proof {
            lemma_replace_step(line@, needle@, replacement@, i as int);
        }
        if needle.len() <= len - i && matches_at(line, needle, i) {
            let ghost before = out@;
            out.extend_from_slice(replacement);
            assert(out@ + replace_all(line@.subrange(i + needle@.len(), len as int), needle@, replacement@)
                =~= before + (replacement@ + replace_all(line@.subrange(i + needle@.len(), len as int), needle@, replacement@)));
            i = i + needle.len();
        } else {
            let ghost before = out@;
            out.push(line[i]);
            assert(out@ + replace_all(line@.subrange(i + 1, len as int), needle@, replacement@)
                =~= before + (seq![line@[i as int]] + replace_all(line@.subrange(i + 1, len as int), needle@, replacement@)));
            i = i + 1;
        }
    }
    assert(line@.subrange(len as int, len as int) =~= Seq::<u8>::empty());
    assert(out@ + Seq::<u8>::empty() =~= out@);
    out
}

} // verus!
