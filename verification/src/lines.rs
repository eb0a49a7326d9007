//! The line model: how a byte buffer splits into newline-delimited lines and
//! which of those lines become records.

use vstd::prelude::*;

verus! {

/// The byte that ends a line.
pub const DELIMITER: u8 = 10;

/// Position of the first delimiter at or after `i`, or `s.len()` when none is left.
pub open spec fn line_end(s: Seq<u8>, i: int) -> int
    decreases s.len() - i when 0 <= i
{
    if i >= s.len() {
        s.len() as int
    } else if s[i] == DELIMITER {
        i
    } else {
        line_end(s, i + 1)
    }
}

/// The lines of a byte buffer, delimiters removed: every delimiter ends a
/// line, and a trailing byte run without a delimiter is a final partial line.
pub open spec fn lines_of(s: Seq<u8>) -> Seq<Seq<u8>>
    decreases s.len(),
{
    if s.len() == 0 {
        Seq::empty()
    } else {
        let e = line_end(s, 0);
        if 0 <= e && e < s.len() {
            seq![s.subrange(0, e)] + lines_of(s.subrange(e + 1, s.len() as int))
        } else {
            seq![s]
        }
    }
}

/// The entries of a line list that are kept, in order: empty lines are dropped.
pub open spec fn non_empty(lines: Seq<Seq<u8>>) -> Seq<Seq<u8>>
    decreases lines.len(),
{
    if lines.len() == 0 {
        Seq::empty()
    } else {
        let rest = non_empty(lines.skip(1));
        if lines[0].len() > 0 {
            seq![lines[0]] + rest
        } else {
            rest
        }
    }
}

/// The records a buffer yields: one per non-empty line, in buffer order.
pub open spec fn records_of(s: Seq<u8>) -> Seq<Seq<u8>> {
    non_empty(lines_of(s))
}

pub proof fn lemma_line_end_bounds(s: Seq<u8>, i: int)
    requires
        0 <= i <= s.len(),
    ensures
        i <= line_end(s, i) <= s.len(),
        line_end(s, i) < s.len() ==> s[line_end(s, i)] == DELIMITER,
        forall|j: int| i <= j < line_end(s, i) ==> s[j] != DELIMITER,
    decreases s.len() - i,
{
    if i < s.len() && s[i] != DELIMITER {
        lemma_line_end_bounds(s, i + 1);
    }
}

/// `line_end` is pinned by its characterization: no delimiter before `e`,
/// and a delimiter (or the buffer's end) at `e`.
pub proof fn lemma_line_end_is(s: Seq<u8>, i: int, e: int)
    requires
        0 <= i <= e <= s.len(),
        forall|j: int| i <= j < e ==> s[j] != DELIMITER,
        e < s.len() ==> s[e] == DELIMITER,
    ensures
        line_end(s, i) == e,
    decreases e - i,
{
    if i < e {
        assert(s[i] != DELIMITER);
        lemma_line_end_is(s, i + 1, e);
    }
}

/// Scanning for a delimiter inside a prefix is unchanged by what follows it.
pub proof fn lemma_line_end_prefix(s: Seq<u8>, t: Seq<u8>, i: int)
    requires
        0 <= i <= s.len(),
        line_end(s, i) < s.len(),
    ensures
        line_end(s + t, i) == line_end(s, i),
{
    let e = line_end(s, i);
    lemma_line_end_bounds(s, i);
    assert(forall|j: int| i <= j < e ==> (s + t)[j] != DELIMITER);
    lemma_line_end_is(s + t, i, e);
}

/// Lines split at delimiters: a buffer that ends on a delimiter contributes
/// its lines unchanged when more bytes follow it.
pub proof fn lemma_lines_append(a: Seq<u8>, b: Seq<u8>)
    requires
        a.len() == 0 || a[a.len() - 1] == DELIMITER,
    ensures
        lines_of(a + b) == lines_of(a) + lines_of(b),
    decreases a.len(),
{
    if a.len() == 0 {
        assert(a + b =~= b);
        assert(lines_of(a) + lines_of(b) =~= lines_of(b));
    } else if b.len() == 0 {
        assert(a + b =~= a);
        assert(lines_of(a) + lines_of(b) =~= lines_of(a));
    } else {
        let e = line_end(a, 0);
        lemma_line_end_bounds(a, 0);
        // The last byte of `a` is a delimiter, so the first line ends inside `a`.
        assert(e < a.len());
        lemma_line_end_prefix(a, b, 0);
        assert((a + b).subrange(0, e) =~= a.subrange(0, e));
        let a2 = a.subrange(e + 1, a.len() as int);
        assert((a + b).subrange(e + 1, (a + b).len() as int) =~= a2 + b);
        if a2.len() == 0 {
            assert(a2 + b =~= b);
            assert(lines_of(a) == seq![a.subrange(0, e)] + lines_of(a2));
            assert(lines_of(a2) =~= Seq::<Seq<u8>>::empty());
            assert(lines_of(a + b) =~= lines_of(a) + lines_of(b));
        } else {
            assert(a2[a2.len() - 1] == a[a.len() - 1]);
            lemma_lines_append(a2, b);
            assert(lines_of(a + b) == seq![a.subrange(0, e)] + (lines_of(a2) + lines_of(b)));
            assert(lines_of(a) == seq![a.subrange(0, e)] + lines_of(a2));
            assert(lines_of(a + b) =~= lines_of(a) + lines_of(b));
        }
    }
}

/// One delimiter-free line followed by one delimiter holds exactly that line.
pub proof fn lemma_lines_single(l: Seq<u8>)
    requires
        forall|j: int| 0 <= j < l.len() ==> l[j] != DELIMITER,
    ensures
        lines_of(l.push(DELIMITER)) == seq![l],
{
    let s = l.push(DELIMITER);
    let e = l.len() as int;
    lemma_line_end_is(s, 0, e);
    assert(s.subrange(0, e) =~= l);
    let rest = s.subrange(e + 1, s.len() as int);
    assert(rest =~= Seq::<u8>::empty());
    assert(lines_of(rest) =~= Seq::<Seq<u8>>::empty());
    assert(lines_of(s) =~= seq![l]);
}

/// Dropping empty lines from a one-line list keeps the line iff it is non-empty.
proof fn lemma_non_empty_single(l: Seq<u8>)
    ensures
        l.len() > 0 ==> non_empty(seq![l]) == seq![l],
        l.len() == 0 ==> non_empty(seq![l]) == Seq::<Seq<u8>>::empty(),
{
    let s = seq![l];
    assert(s.skip(1) =~= Seq::<Seq<u8>>::empty());
    assert(non_empty(s.skip(1)) =~= Seq::<Seq<u8>>::empty());
    if l.len() > 0 {
        assert(non_empty(s) =~= seq![l]);
    } else {
        assert(non_empty(s) =~= Seq::<Seq<u8>>::empty());
    }
}

/// A non-empty buffer without a delimiter is one partial line.
pub proof fn lemma_lines_partial(l: Seq<u8>)
    requires
        l.len() > 0,
        forall|j: int| 0 <= j < l.len() ==> l[j] != DELIMITER,
    ensures
        lines_of(l) == seq![l],
{
    lemma_line_end_is(l, 0, l.len() as int);
}

/// Dropping empty lines distributes over concatenation of line lists.
pub proof fn lemma_non_empty_append(a: Seq<Seq<u8>>, b: Seq<Seq<u8>>)
    ensures
        non_empty(a + b) == non_empty(a) + non_empty(b),
    decreases a.len(),
{
    if a.len() == 0 {
        assert(a + b =~= b);
        assert(non_empty(a) + non_empty(b) =~= non_empty(b));
    } else {
        assert((a + b).skip(1) =~= a.skip(1) + b);
        lemma_non_empty_append(a.skip(1), b);
        assert(non_empty(a + b) =~= non_empty(a) + non_empty(b));
    }
}

/// Records split at delimiters: a buffer built from delimiter-terminated
/// chunks yields the chunks' records, in order. Filling the input buffer in
/// several reads loses no line and reorders none.
pub proof fn lemma_records_append(a: Seq<u8>, b: Seq<u8>)
    requires
        a.len() == 0 || a[a.len() - 1] == DELIMITER,
    ensures
        records_of(a + b) == records_of(a) + records_of(b),
{
    lemma_lines_append(a, b);
    lemma_non_empty_append(lines_of(a), lines_of(b));
}

/// Split a drained buffer into records: one per non-empty line, in order.
/// A trailing byte run without a delimiter is a final line; an empty line
/// (two adjacent delimiters, or a leading one) yields no record.
pub fn split_records(buf: &Vec<u8>) -> (recs: Vec<Vec<u8>>)
    ensures
        recs.deep_view() == records_of(buf@),
{
    let mut recs: Vec<Vec<u8>> = Vec::new();
    let mut cur: Vec<u8> = Vec::new();
    let mut i: usize = 0;
    let ghost mut done: int = 0;
    while i < buf.len()
        invariant
            0 <= done <= i <= buf.len(),
            cur@ == buf@.subrange(done, i as int),
            forall|j: int| 0 <= j < cur@.len() ==> cur@[j] != DELIMITER,
            done == 0 || buf@[done - 1] == DELIMITER,
            recs.deep_view() == records_of(buf@.subrange(0, done)),
        decreases buf@.len() - i,
    {
        let b = buf[i];
        if b == DELIMITER {
            proof {
                let prefix = buf@.subrange(0, done);
                let chunk = cur@.push(DELIMITER);
                assert(buf@.subrange(0, i + 1) =~= prefix + chunk);
                lemma_records_append(prefix, chunk);
                lemma_lines_single(cur@);
                lemma_non_empty_single(cur@);
            }
            if cur.len() > 0 {
                let ghost prev = recs.deep_view();
                let ghost line = cur@;
                recs.push(cur);
                cur = Vec::new();
                proof {
                    assert(recs.deep_view() =~~= prev.push(line));
                    assert(recs.deep_view() =~~= records_of(buf@.subrange(0, i + 1)));
                }
            } else {
                proof {
                    assert(recs.deep_view() =~~= records_of(buf@.subrange(0, i + 1)));
                }
            }
            proof {
                done = i + 1;
                assert(cur@ =~= buf@.subrange(done, i + 1));
            }
        } else {
            cur.push(b);
            proof {
                assert(cur@ =~= buf@.subrange(done, i + 1));
            }
        }
        i += 1;
    }
    proof {
        assert(buf@ =~= buf@.subrange(0, done) + cur@);
    }
    if cur.len() > 0 {
        proof {
            lemma_records_append(buf@.subrange(0, done), cur@);
            lemma_lines_partial(cur@);
            lemma_non_empty_single(cur@);
        }
        let ghost prev = recs.deep_view();
        let ghost line = cur@;
        recs.push(cur);
        proof {
            assert(recs.deep_view() =~~= prev.push(line));
            assert(recs.deep_view() =~~= records_of(buf@));
        }
    } else {
        proof {
            assert(buf@ =~= buf@.subrange(0, done));
        }
    }
    recs
}

} // verus!
