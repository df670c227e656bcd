//! Marker splicing: locate a start/end marker line pair in a file's lines
//! and replace only the text strictly between them.

use vstd::prelude::*;
use crate::text::{
    bytes_eq, copy_bytes, count_line, first_eq, lemma_count_le_len, lemma_count_one_unique,
    lemma_count_take_step, lemma_count_zero, lemma_first_eq_is, lemma_lines_view_push, lines_view,
    push_all_lines, push_lines_range,
};

verus! {

/// `c` holds exactly one line equal to `sm`, exactly one equal to `em`, and
/// the start marker stands before the end marker.
pub open spec fn has_one_pair(c: Seq<Seq<u8>>, sm: Seq<u8>, em: Seq<u8>) -> bool {
    &&& count_line(c, sm) == 1
    &&& count_line(c, em) == 1
    &&& first_eq(c, sm) < first_eq(c, em)
}

/// The lines of `c` with the region strictly between the markers replaced by
/// `body`: everything up to and including the start marker, then `body`, then
/// everything from the end marker on.
pub open spec fn splice_lines(
    c: Seq<Seq<u8>>,
    sm: Seq<u8>,
    em: Seq<u8>,
    body: Seq<Seq<u8>>,
) -> Seq<Seq<u8>> {
    c.take(first_eq(c, sm) + 1) + body + c.skip(first_eq(c, em))
}

/// The lines strictly between the start and end marker.
pub open spec fn marker_region(c: Seq<Seq<u8>>, sm: Seq<u8>, em: Seq<u8>) -> Seq<Seq<u8>> {
    c.subrange(first_eq(c, sm) + 1, first_eq(c, em))
}

/// A fresh managed file: header lines, the start marker, `body`, the end marker.
pub open spec fn synth_lines(
    header: Seq<Seq<u8>>,
    sm: Seq<u8>,
    em: Seq<u8>,
    body: Seq<Seq<u8>>,
) -> Seq<Seq<u8>> {
    header + seq![sm] + body + seq![em]
}

/// `x` occurs on no line of `header` or `body`, so a marker equal to `x`
/// stays unique after splicing.
pub open spec fn line_absent(s: Seq<Seq<u8>>, x: Seq<u8>) -> bool {
    count_line(s, x) == 0
}

/// Replaces the region strictly between the marker pair of `content` with
/// `body`. Returns `None` when `content` does not hold exactly one pair in
/// order; nothing is guessed then.
pub fn splice(content: &Vec<Vec<u8>>, sm: &Vec<u8>, em: &Vec<u8>, body: &Vec<Vec<u8>>) -> (r:
    Option<Vec<Vec<u8>>>)
    ensures
        match r {
            Some(out) => has_one_pair(lines_view(content@), sm@, em@) && lines_view(out@)
                == splice_lines(lines_view(content@), sm@, em@, lines_view(body@)),
            None => !has_one_pair(lines_view(content@), sm@, em@),
        },
{
    let ghost c = lines_view(content@);
    let mut count_sm: usize = 0;
    let mut count_em: usize = 0;
    let mut first_sm: usize = 0;
    let mut first_em: usize = 0;
    let mut i: usize = 0;
    while i < content.len()
        invariant
            0 <= i <= content@.len(),
            c == lines_view(content@),
            count_sm == count_line(c.take(i as int), sm@),
            count_em == count_line(c.take(i as int), em@),
            count_sm > 0 ==> 0 <= first_sm < i && c[first_sm as int] == sm@ && (forall|j: int|
                0 <= j < first_sm ==> c[j] != sm@),
            count_em > 0 ==> 0 <= first_em < i && c[first_em as int] == em@ && (forall|j: int|
                0 <= j < first_em ==> c[j] != em@),
        decreases content@.len() - i,
    {
        proof {
            lemma_count_take_step(c, sm@, i as int);
            lemma_count_take_step(c, em@, i as int);
            lemma_count_le_len(c.take(i as int), sm@);
            lemma_count_le_len(c.take(i as int), em@);
            lemma_count_zero(c.take(i as int), sm@);
            lemma_count_zero(c.take(i as int), em@);
            assert(forall|j: int| 0 <= j < i ==> c.take(i as int)[j] == c[j]);
        }
        if bytes_eq(&content[i], sm) {
            if count_sm == 0 {
                first_sm = i;
            }
            count_sm = count_sm + 1;
        }
        if bytes_eq(&content[i], em) {
            if count_em == 0 {
                first_em = i;
            }
            count_em = count_em + 1;
        }
        i = i + 1;
    }
    proof {
        assert(c.take(c.len() as int) =~= c);
    }
    if count_sm != 1 || count_em != 1 {
        proof {
            if count_sm == 1 {
                lemma_first_eq_is(c, sm@, first_sm as int);
            }
            if count_em == 1 {
                lemma_first_eq_is(c, em@, first_em as int);
            }
        }
        return None;
    }
    proof {
        lemma_first_eq_is(c, sm@, first_sm as int);
        lemma_first_eq_is(c, em@, first_em as int);
    }
    if first_em <= first_sm {
        return None;
    }
    let mut out: Vec<Vec<u8>> = Vec::new();
    push_lines_range(&mut out, content, 0, first_sm + 1);
    push_all_lines(&mut out, body);
    push_lines_range(&mut out, content, first_em, content.len());
    proof {
        assert(c.subrange(0, first_sm as int + 1) =~= c.take(first_sm as int + 1));
        assert(c.subrange(first_em as int, c.len() as int) =~= c.skip(first_em as int));
        assert(lines_view(out@) =~= splice_lines(c, sm@, em@, lines_view(body@)));
    }
    Some(out)
}

/// Builds a fresh managed file from its header, markers and body.
pub fn synth(header: &Vec<Vec<u8>>, sm: &Vec<u8>, em: &Vec<u8>, body: &Vec<Vec<u8>>) -> (out: Vec<
    Vec<u8>,
>)
    ensures
        lines_view(out@) == synth_lines(lines_view(header@), sm@, em@, lines_view(body@)),
{
    let mut out: Vec<Vec<u8>> = Vec::new();
    push_all_lines(&mut out, header);
    let ghost mid = out@;
    out.push(copy_bytes(sm));
    proof {
        lemma_lines_view_push(mid, out@[mid.len() as int]);
    }
    push_all_lines(&mut out, body);
    let ghost mid2 = out@;
    out.push(copy_bytes(em));
    proof {
        lemma_lines_view_push(mid2, out@[mid2.len() as int]);
        assert(lines_view(out@) =~= synth_lines(
            lines_view(header@),
            sm@,
            em@,
            lines_view(body@),
        ));
    }
    out
}

/// Splicing writes the body between the markers and touches nothing else:
/// the result has one marker pair again, its region is exactly `body`, and
/// splicing the same body once more changes nothing.
pub proof fn lemma_splice_properties(
    c: Seq<Seq<u8>>,
    sm: Seq<u8>,
    em: Seq<u8>,
    body: Seq<Seq<u8>>,
)
    requires
        has_one_pair(c, sm, em),
        line_absent(body, sm),
        line_absent(body, em),
        sm != em,
    ensures
        ({
            let r = splice_lines(c, sm, em, body);
            &&& has_one_pair(r, sm, em)
            &&& first_eq(r, sm) == first_eq(c, sm)
            &&& marker_region(r, sm, em) == body
            &&& splice_lines(r, sm, em, body) == r
        }),
{
    let i = first_eq(c, sm);
    let j = first_eq(c, em);
    lemma_count_one_unique(c, sm);
    lemma_count_one_unique(c, em);
    let r = splice_lines(c, sm, em, body);
    let pre = c.take(i + 1);
    let post = c.skip(j);
    assert(r == pre + body + post);
    // The start marker occurs in r exactly at index i.
    assert(r[i] == sm);
    assert forall|k: int| 0 <= k < r.len() && k != i implies r[k] != sm by {
        if k < pre.len() {
            assert(r[k] == c[k]);
        } else if k < pre.len() + body.len() {
            assert(r[k] == body[k - pre.len()]);
            lemma_count_zero(body, sm);
        } else {
            assert(r[k] == c[k - pre.len() - body.len() + j]);
        }
    }
    crate::text::lemma_unique_count_one(r, sm, i);
    // The end marker occurs in r exactly at index i + 1 + body.len().
    let e = i + 1 + body.len();
    assert(r[e] == c[j]);
    assert forall|k: int| 0 <= k < r.len() && k != e implies r[k] != em by {
        if k < pre.len() {
            assert(r[k] == c[k]);
        } else if k < pre.len() + body.len() {
            assert(r[k] == body[k - pre.len()]);
            lemma_count_zero(body, em);
        } else {
            assert(r[k] == c[k - pre.len() - body.len() + j]);
        }
    }
    crate::text::lemma_unique_count_one(r, em, e);
    assert(marker_region(r, sm, em) =~= body);
    assert(r.take(i + 1) =~= pre);
    assert(r.skip(e) =~= post);
    assert(splice_lines(r, sm, em, body) =~= r);
}

/// Splicing preserves everything up to and including the start marker, and
/// everything from the end marker on, line for line.
pub proof fn lemma_splice_preserves_outside(
    c: Seq<Seq<u8>>,
    sm: Seq<u8>,
    em: Seq<u8>,
    body: Seq<Seq<u8>>,
)
    requires
        has_one_pair(c, sm, em),
    ensures
        ({
            let r = splice_lines(c, sm, em, body);
            let i = first_eq(c, sm);
            let j = first_eq(c, em);
            &&& r.len() == i + 1 + body.len() + (c.len() - j)
            &&& r.take(i + 1) == c.take(i + 1)
            &&& r.subrange(i + 1, i + 1 + body.len()) == body
            &&& r.skip(i + 1 + body.len()) == c.skip(j)
        }),
{
    let r = splice_lines(c, sm, em, body);
    let i = first_eq(c, sm);
    let j = first_eq(c, em);
    lemma_count_one_unique(c, sm);
    lemma_count_one_unique(c, em);
    assert(r.take(i + 1) =~= c.take(i + 1));
    assert(r.subrange(i + 1, i + 1 + body.len() as int) =~= body);
    assert(r.skip(i + 1 + body.len() as int) =~= c.skip(j));
}

/// A fresh managed file also has one marker pair, its region is exactly
/// `body`, and splicing the same body into it changes nothing.
pub proof fn lemma_synth_properties(
    header: Seq<Seq<u8>>,
    sm: Seq<u8>,
    em: Seq<u8>,
    body: Seq<Seq<u8>>,
)
    requires
        line_absent(header, sm),
        line_absent(header, em),
        line_absent(body, sm),
        line_absent(body, em),
        sm != em,
    ensures
        ({
            let r = synth_lines(header, sm, em, body);
            &&& has_one_pair(r, sm, em)
            &&& first_eq(r, sm) == header.len()
            &&& marker_region(r, sm, em) == body
            &&& splice_lines(r, sm, em, body) == r
        }),
{
    let r = synth_lines(header, sm, em, body);
    let i = header.len() as int;
    let e = i + 1 + body.len();
    assert(r[i] == sm);
    assert(r[e] == em);
    assert forall|k: int| 0 <= k < r.len() && k != i implies r[k] != sm by {
        if k < i {
            assert(r[k] == header[k]);
            lemma_count_zero(header, sm);
        } else if k > i && k < e {
            assert(r[k] == body[k - i - 1]);
            lemma_count_zero(body, sm);
        }
    }
    crate::text::lemma_unique_count_one(r, sm, i);
    assert forall|k: int| 0 <= k < r.len() && k != e implies r[k] != em by {
        if k < i {
            assert(r[k] == header[k]);
            lemma_count_zero(header, em);
        } else if k > i && k < e {
            assert(r[k] == body[k - i - 1]);
            lemma_count_zero(body, em);
        }
    }
    crate::text::lemma_unique_count_one(r, em, e);
    assert(marker_region(r, sm, em) =~= body);
    assert(r.take(i + 1) =~= header + seq![sm]);
    assert(r.skip(e) =~= seq![em]);
    assert(splice_lines(r, sm, em, body) =~= r);
}

} // verus!

