//! Byte-string and line-sequence primitives.
//!
//! File contents are modelled as sequences of lines, each line a byte
//! string without its terminating newline.  All higher layers state their
//! contracts over `Seq<Seq<u8>>` built by [`lines_view`].

use vstd::prelude::*;

verus! {

/// The spec-level contents of a line list: each `Vec<u8>` line as a `Seq<u8>`.
pub open spec fn lines_view(c: Seq<Vec<u8>>) -> Seq<Seq<u8>> {
    Seq::new(c.len(), |i: int| c[i]@)
}

/// How many lines of `s` are equal to `x`.
pub open spec fn count_line(s: Seq<Seq<u8>>, x: Seq<u8>) -> nat
    decreases s.len(),
{
    if s.len() == 0 {
        0
    } else {
        (if s[0] == x {
            1nat
        } else {
            0nat
        }) + count_line(s.skip(1), x)
    }
}

/// Index of the first line of `s` equal to `x`; `s.len()` if there is none.
pub open spec fn first_eq(s: Seq<Seq<u8>>, x: Seq<u8>) -> int
    decreases s.len(),
{
    if s.len() == 0 {
        0
    } else if s[0] == x {
        0
    } else {
        1 + first_eq(s.skip(1), x)
    }
}

pub proof fn lemma_count_append(a: Seq<Seq<u8>>, b: Seq<Seq<u8>>, x: Seq<u8>)
    ensures
        count_line(a + b, x) == count_line(a, x) + count_line(b, x),
    decreases a.len(),
{
    if a.len() == 0 {
        assert(a + b =~= b);
    } else {
        assert((a + b).skip(1) =~= a.skip(1) + b);
        lemma_count_append(a.skip(1), b, x);
    }
}

pub proof fn lemma_count_zero(s: Seq<Seq<u8>>, x: Seq<u8>)
    ensures
        count_line(s, x) == 0 <==> (forall|i: int| 0 <= i < s.len() ==> s[i] != x),
    decreases s.len(),
{
    if s.len() > 0 {
        lemma_count_zero(s.skip(1), x);
        assert(forall|i: int| 1 <= i < s.len() ==> s[i] == s.skip(1)[i - 1]);
    }
}

pub proof fn lemma_first_eq(s: Seq<Seq<u8>>, x: Seq<u8>)
    ensures
        0 <= first_eq(s, x) <= s.len(),
        first_eq(s, x) < s.len() ==> s[first_eq(s, x)] == x,
        forall|i: int| 0 <= i < first_eq(s, x) ==> s[i] != x,
        (first_eq(s, x) < s.len()) <==> count_line(s, x) > 0,
    decreases s.len(),
{
    if s.len() > 0 && s[0] != x {
        lemma_first_eq(s.skip(1), x);
        assert(forall|i: int| 1 <= i < s.len() ==> s[i] == s.skip(1)[i - 1]);
    }
}

/// Splitting a sequence at index `i` splits the count.
pub proof fn lemma_count_split(s: Seq<Seq<u8>>, x: Seq<u8>, i: int)
    requires
        0 <= i < s.len(),
    ensures
        count_line(s, x) == count_line(s.take(i), x) + (if s[i] == x {
            1int
        } else {
            0int
        }) + count_line(s.skip(i + 1), x),
{
    let mid = seq![s[i]];
    assert(s =~= s.take(i) + mid + s.skip(i + 1));
    lemma_count_append(s.take(i) + mid, s.skip(i + 1), x);
    lemma_count_append(s.take(i), mid, x);
    assert(count_line(mid, x) == (if s[i] == x {
        1int
    } else {
        0int
    })) by {
        assert(mid.skip(1) =~= Seq::<Seq<u8>>::empty());
        assert(count_line(Seq::<Seq<u8>>::empty(), x) == 0);
    }
}

/// In a sequence holding exactly one line equal to `x`, that line stands at
/// `first_eq` and nowhere else.
pub proof fn lemma_count_one_unique(s: Seq<Seq<u8>>, x: Seq<u8>)
    requires
        count_line(s, x) == 1,
    ensures
        0 <= first_eq(s, x) < s.len(),
        s[first_eq(s, x)] == x,
        forall|i: int| 0 <= i < s.len() && i != first_eq(s, x) ==> s[i] != x,
{
    lemma_first_eq(s, x);
    let f = first_eq(s, x);
    lemma_count_split(s, x, f);
    lemma_count_zero(s.take(f), x);
    lemma_count_zero(s.skip(f + 1), x);
    assert(forall|i: int| f < i < s.len() ==> s[i] == s.skip(f + 1)[i - f - 1]);
}

/// If a line equal to `x` stands at `i` and nowhere else, the count is one
/// and `first_eq` finds `i`.
pub proof fn lemma_unique_count_one(s: Seq<Seq<u8>>, x: Seq<u8>, i: int)
    requires
        0 <= i < s.len(),
        s[i] == x,
        forall|j: int| 0 <= j < s.len() && j != i ==> s[j] != x,
    ensures
        count_line(s, x) == 1,
        first_eq(s, x) == i,
{
    lemma_count_split(s, x, i);
    lemma_count_zero(s.take(i), x);
    lemma_count_zero(s.skip(i + 1), x);
    assert(forall|j: int| i < j < s.len() ==> s[j] == s.skip(i + 1)[j - i - 1]);
    lemma_first_eq(s, x);
}

/// A line equal to `x` at `k` with none before it is the first one.
pub proof fn lemma_first_eq_is(s: Seq<Seq<u8>>, x: Seq<u8>, k: int)
    requires
        0 <= k < s.len(),
        s[k] == x,
        forall|j: int| 0 <= j < k ==> s[j] != x,
    ensures
        first_eq(s, x) == k,
{
    lemma_first_eq(s, x);
    lemma_count_zero(s, x);
}

pub proof fn lemma_count_le_len(s: Seq<Seq<u8>>, x: Seq<u8>)
    ensures
        count_line(s, x) <= s.len(),
    decreases s.len(),
{
    if s.len() > 0 {
        lemma_count_le_len(s.skip(1), x);
    }
}

pub proof fn lemma_count_take_step(s: Seq<Seq<u8>>, x: Seq<u8>, i: int)
    requires
        0 <= i < s.len(),
    ensures
        count_line(s.take(i + 1), x) == count_line(s.take(i), x) + (if s[i] == x {
            1int
        } else {
            0int
        }),
{
    let mid = seq![s[i]];
    assert(s.take(i + 1) =~= s.take(i) + mid);
    lemma_count_append(s.take(i), mid, x);
    assert(count_line(mid, x) == (if s[i] == x {
        1int
    } else {
        0int
    })) by {
        assert(mid.skip(1) =~= Seq::<Seq<u8>>::empty());
        assert(count_line(Seq::<Seq<u8>>::empty(), x) == 0);
    }
}

/// Byte-string equality, decided by value.
pub fn bytes_eq(a: &Vec<u8>, b: &Vec<u8>) -> (r: bool)
    ensures
        r <==> a@ == b@,
{
    if a.len() != b.len() {
        assert(a@ != b@) by {
            assert(a@.len() != b@.len());
        }
        return false;
    }
    let mut i: usize = 0;
    while i < a.len()
        invariant
            0 <= i <= a.len(),
            a@.len() == b@.len(),
            forall|j: int| 0 <= j < i ==> a@[j] == b@[j],
        decreases a.len() - i,
    {
        if a[i] != b[i] {
            return false;
        }
        i = i + 1;
    }
    assert(a@ =~= b@);
    true
}

/// Appends all bytes of `src` to `dst`.
pub fn push_all(dst: &mut Vec<u8>, src: &Vec<u8>)
    ensures
        final(dst)@ == old(dst)@ + src@,
{
    let mut i: usize = 0;
    while i < src.len()
        invariant
            0 <= i <= src.len(),
            dst@ == old(dst)@ + src@.take(i as int),
        decreases src.len() - i,
    {
        dst.push(src[i]);
        assert(old(dst)@ + src@.take(i as int) + seq![src@[i as int]] =~= old(dst)@ + src@.take(
            i as int + 1,
        ));
        i = i + 1;
    }
    assert(src@.take(src@.len() as int) =~= src@);
}

/// Index of the first occurrence of byte `b` in `v`, if any.
pub fn find_byte(v: &Vec<u8>, b: u8) -> (r: Option<usize>)
    ensures
        match r {
            Some(i) => 0 <= i < v@.len() && v@[i as int] == b && (forall|j: int|
                0 <= j < i ==> v@[j] != b),
            None => forall|j: int| 0 <= j < v@.len() ==> v@[j] != b,
        },
{
    let mut i: usize = 0;
    while i < v.len()
        invariant
            0 <= i <= v.len(),
            forall|j: int| 0 <= j < i ==> v@[j] != b,
        decreases v.len() - i,
    {
        if v[i] == b {
            return Some(i);
        }
        i = i + 1;
    }
    None
}

/// Whether `v` holds the byte `b` anywhere.
pub open spec fn has_byte(s: Seq<u8>, b: u8) -> bool {
    exists|i: int| 0 <= i < s.len() && s[i] == b
}

/// Index of the first byte of `s` equal to `b`; `s.len()` if there is none.
pub open spec fn first_byte(s: Seq<u8>, b: u8) -> int
    decreases s.len(),
{
    if s.len() == 0 {
        0
    } else if s[0] == b {
        0
    } else {
        1 + first_byte(s.skip(1), b)
    }
}

/// A byte equal to `b` at `k` with none before it is the first one; with
/// `k == s.len()` this says no byte of `s` equals `b` at all.
pub proof fn lemma_first_byte_is(s: Seq<u8>, b: u8, k: int)
    requires
        0 <= k <= s.len(),
        forall|j: int| 0 <= j < k ==> s[j] != b,
        k < s.len() ==> s[k] == b,
    ensures
        first_byte(s, b) == k,
    decreases s.len(),
{
    if s.len() == 0 {
    } else if s[0] == b {
        assert(k == 0);
    } else {
        assert(k >= 1);
        assert(forall|j: int| 0 <= j < k - 1 ==> s.skip(1)[j] == s[j + 1]);
        if k - 1 < s.len() - 1 {
            assert(s.skip(1)[k - 1] == s[k]);
        }
        lemma_first_byte_is(s.skip(1), b, k - 1);
    }
}

/// Appends the bytes `src[from..to]` to `dst`.
pub fn push_byte_range(dst: &mut Vec<u8>, src: &Vec<u8>, from: usize, to: usize)
    requires
        from <= to,
        to <= src@.len(),
    ensures
        final(dst)@ == old(dst)@ + src@.subrange(from as int, to as int),
{
    let ghost orig = dst@;
    let mut j: usize = from;
    while j < to
        invariant
            from <= j <= to,
            to <= src@.len(),
            dst@ =~= orig + src@.subrange(from as int, j as int),
        decreases to - j,
    {
        dst.push(src[j]);
        assert(dst@ =~= orig + src@.subrange(from as int, j as int + 1));
        j = j + 1;
    }
}

pub proof fn lemma_lines_view_push(s: Seq<Vec<u8>>, v: Vec<u8>)
    ensures
        lines_view(s.push(v)) =~= lines_view(s).push(v@),
{
    assert(forall|j: int| 0 <= j < s.len() ==> #[trigger] s.push(v)[j] == s[j]);
    assert(s.push(v)[s.len() as int] == v);
}

/// A fresh byte string with the same bytes as `src`.
pub fn copy_bytes(src: &Vec<u8>) -> (r: Vec<u8>)
    ensures
        r@ == src@,
{
    let mut r: Vec<u8> = Vec::new();
    push_all(&mut r, src);
    assert(r@ =~= src@);
    r
}

/// Appends all lines of `src` to `dst`.
pub fn push_all_lines(dst: &mut Vec<Vec<u8>>, src: &Vec<Vec<u8>>)
    ensures
        lines_view(final(dst)@) == lines_view(old(dst)@) + lines_view(src@),
{
    let ghost orig = dst@;
    let mut i: usize = 0;
    while i < src.len()
        invariant
            0 <= i <= src.len(),
            lines_view(dst@) =~= lines_view(orig) + lines_view(src@).take(i as int),
        decreases src.len() - i,
    {
        let ghost prev = dst@;
        let line = copy_bytes(&src[i]);
        assert(line@ == src@[i as int]@);
        dst.push(line);
        proof {
            assert(dst@ == prev.push(line));
            lemma_lines_view_push(prev, line);
            assert(lines_view(src@).take(i as int).push(lines_view(src@)[i as int]) =~= lines_view(
                src@,
            ).take(i as int + 1));
            assert(lines_view(dst@) =~= lines_view(orig) + lines_view(src@).take(i as int + 1));
        }
        i = i + 1;
    }
    assert(lines_view(src@).take(src@.len() as int) =~= lines_view(src@));
    assert(lines_view(dst@) =~= lines_view(orig) + lines_view(src@));
}

/// Appends the lines `src[from..to]` to `dst`.
pub fn push_lines_range(dst: &mut Vec<Vec<u8>>, src: &Vec<Vec<u8>>, from: usize, to: usize)
    requires
        from <= to,
        to <= src@.len(),
    ensures
        lines_view(final(dst)@) == lines_view(old(dst)@) + lines_view(src@).subrange(
            from as int,
            to as int,
        ),
{
    let ghost orig = dst@;
    let mut j: usize = from;
    while j < to
        invariant
            from <= j <= to,
            to <= src@.len(),
            lines_view(dst@) =~= lines_view(orig) + lines_view(src@).subrange(
                from as int,
                j as int,
            ),
        decreases to - j,
    {
        let ghost prev = dst@;
        let line = copy_bytes(&src[j]);
        dst.push(line);
        proof {
            assert(dst@ == prev.push(line));
            lemma_lines_view_push(prev, line);
            assert(lines_view(src@).subrange(from as int, j as int).push(lines_view(src@)[j as int])
                =~= lines_view(src@).subrange(from as int, j as int + 1));
            assert(lines_view(dst@) =~= lines_view(orig) + lines_view(src@).subrange(
                from as int,
                j as int + 1,
            ));
        }
        j = j + 1;
    }
    assert(lines_view(dst@) =~= lines_view(orig) + lines_view(src@).subrange(
        from as int,
        to as int,
    ));
}

} // verus!
