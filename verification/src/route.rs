use vstd::prelude::*;
use crate::text::{is_space, is_space_byte, bytes_eq, clone_bytes, views_of};

verus! {

/// The text split at every line feed; a trailing line feed yields a final
/// empty line, and the split of the empty text is one empty line.
pub open spec fn lines_of(s: Seq<u8>) -> Seq<Seq<u8>>
    decreases s.len(),
{
    if s.len() == 0 {
        seq![Seq::<u8>::empty()]
    } else if s[0] == 10 {
        seq![Seq::<u8>::empty()] + lines_of(s.drop_first())
    } else {
        let r = lines_of(s.drop_first());
        seq![seq![s[0]] + r[0]] + r.drop_first()
    }
}

/// The maximal whitespace-free words of a line, in order.
pub open spec fn tokens(l: Seq<u8>) -> Seq<Seq<u8>>
    decreases l.len(),
{
    if l.len() == 0 {
        Seq::<Seq<u8>>::empty()
    } else if is_space(l[0]) {
        tokens(l.drop_first())
    } else {
        let r = tokens(l.drop_first());
        if l.len() > 1 && !is_space(l[1]) {
            seq![seq![l[0]] + r[0]] + r.drop_first()
        } else {
            seq![seq![l[0]]] + r
        }
    }
}

/// The all-zero destination column that marks the default route.
pub open spec fn zero_dest() -> Seq<u8> {
    Seq::new(8, |i: int| 48u8)
}

/// A routing-table line describes the default route when its second column
/// is the all-zero destination; the line then names its interface in the
/// first column.
pub open spec fn line_default(l: Seq<u8>) -> Option<Seq<u8>> {
    let ts = tokens(l);
    if ts.len() > 2 && ts[1] == zero_dest() {
        Some(ts[0])
    } else {
        None
    }
}

/// The interface of the first default-route line, if any.
pub open spec fn first_default(ls: Seq<Seq<u8>>) -> Option<Seq<u8>>
    decreases ls.len(),
{
    if ls.len() == 0 {
        None
    } else if line_default(ls[0]) is Some {
        line_default(ls[0])
    } else {
        first_default(ls.drop_first())
    }
}

/// What the routing-table text names as the default-route interface: the
/// first column of the first line past the header whose destination column
/// is all zeroes.
pub open spec fn default_route_spec(content: Seq<u8>) -> Option<Seq<u8>> {
    first_default(lines_of(content).drop_first())
}

proof fn lemma_lines_no_nl(s: Seq<u8>)
    requires
        forall|k: int| 0 <= k < s.len() ==> s[k] != 10,
    ensures
        lines_of(s) == seq![s],
    decreases s.len(),
{
    if s.len() == 0 {
        assert(lines_of(s) =~~= seq![s]);
    } else {
        lemma_lines_no_nl(s.drop_first());
        let r = lines_of(s.drop_first());
        assert(r[0] == s.drop_first());
        assert(seq![s[0]] + s.drop_first() =~= s);
        assert(lines_of(s) =~~= seq![s]);
    }
}

proof fn lemma_lines_split(s: Seq<u8>, i: int)
    requires
        0 <= i < s.len(),
        s[i] == 10,
        forall|k: int| 0 <= k < i ==> s[k] != 10,
    ensures
        lines_of(s) == seq![s.take(i)] + lines_of(s.skip(i + 1)),
    decreases i,
{
    if i == 0 {
        assert(s.take(0) =~= Seq::<u8>::empty());
        assert(s.drop_first() =~= s.skip(1));
    } else {
        lemma_lines_split(s.drop_first(), i - 1);
        let r = lines_of(s.drop_first());
        assert(s.drop_first().take(i - 1) =~= s.take(i).drop_first());
        assert(s.drop_first().skip(i) =~= s.skip(i + 1));
        assert(r[0] == s.take(i).drop_first());
        assert(r.drop_first() =~= lines_of(s.skip(i + 1)));
        assert(seq![s[0]] + s.take(i).drop_first() =~= s.take(i));
        assert(lines_of(s) =~~= seq![s.take(i)] + lines_of(s.skip(i + 1)));
    }
}

proof fn lemma_tokens_peel(l: Seq<u8>, k: int)
    requires
        0 < k <= l.len(),
        forall|j: int| 0 <= j < k ==> !is_space(l[j]),
        k == l.len() || is_space(l[k]),
    ensures
        tokens(l) == seq![l.take(k)] + tokens(l.skip(k)),
    decreases k,
{
    if k == 1 {
        assert(l.take(1) =~= seq![l[0]]);
        assert(l.skip(1) =~= l.drop_first());
        if l.len() > 1 && !is_space(l[1]) {
            assert(false);
        }
        assert(tokens(l) =~~= seq![l.take(1)] + tokens(l.skip(1)));
    } else {
        lemma_tokens_peel(l.drop_first(), k - 1);
        let r = tokens(l.drop_first());
        assert(l.drop_first().take(k - 1) =~= l.take(k).drop_first());
        assert(l.drop_first().skip(k - 1) =~= l.skip(k));
        assert(r[0] == l.take(k).drop_first());
        assert(r.drop_first() =~= tokens(l.skip(k)));
        assert(seq![l[0]] + l.take(k).drop_first() =~= l.take(k));
        assert(tokens(l) =~~= seq![l.take(k)] + tokens(l.skip(k)));
    }
}

/// Index of the first line feed at or past `from`, or the length when there
/// is none.
fn find_nl(v: &[u8], from: usize) -> (r: usize)
    requires
        from <= v@.len(),
    ensures
        from <= r <= v@.len(),
        forall|k: int| from <= k < r ==> v@[k] != 10,
        r < v@.len() ==> v@[r as int] == 10,
{
    let n: usize = v.len();
    let mut i: usize = from;
    while i < n && v[i] != 10
        invariant
            from <= i <= n,
            n == v@.len(),
            forall|k: int| from <= k < i ==> v@[k] != 10,
        decreases n - i,
    {
        i += 1;
    }
    i
}

/// Copy of the bytes of `v` from `lo` (inclusive) to `hi` (exclusive).
fn copy_range(v: &[u8], lo: usize, hi: usize) -> (r: Vec<u8>)
    requires
        lo <= hi <= v@.len(),
    ensures
        r@ == v@.subrange(lo as int, hi as int),
{
    let mut r: Vec<u8> = Vec::new();
    let mut k: usize = lo;
    while k < hi
        invariant
            lo <= k <= hi <= v@.len(),
            r@ == v@.subrange(lo as int, k as int),
        decreases hi - k,
    {
        r.push(v[k]);
        k += 1;
        proof {
            assert(v@.subrange(lo as int, k as int) =~= v@.subrange(lo as int, k - 1).push(
                v@[k - 1],
            ));
        }
    }
    r
}

/// The whitespace-separated words of `v` between `lo` and `hi`, in order.
fn split_tokens(v: &[u8], lo: usize, hi: usize) -> (r: Vec<Vec<u8>>)
    requires
        lo <= hi <= v@.len(),
    ensures
        views_of(r@) == tokens(v@.subrange(lo as int, hi as int)),
{
    let mut r: Vec<Vec<u8>> = Vec::new();
    let mut pos: usize = lo;
    while pos < hi
        invariant
            lo <= pos <= hi <= v@.len(),
            tokens(v@.subrange(lo as int, hi as int)) == views_of(r@) + tokens(
                v@.subrange(pos as int, hi as int),
            ),
        ensures
            pos == hi,
            tokens(v@.subrange(lo as int, hi as int)) == views_of(r@) + tokens(
                v@.subrange(pos as int, hi as int),
            ),
        decreases hi - pos,
    {
        let ghost pos0 = pos as int;
        while pos < hi && is_space_byte(v[pos])
            invariant
                lo <= pos <= hi <= v@.len(),
                pos0 <= pos as int,
                tokens(v@.subrange(lo as int, hi as int)) == views_of(r@) + tokens(
                    v@.subrange(pos as int, hi as int),
                ),
            decreases hi - pos,
        {
            proof {
                let cur = v@.subrange(pos as int, hi as int);
                assert(cur[0] == v@[pos as int]);
                assert(cur.drop_first() =~= v@.subrange(pos + 1, hi as int));
            }
            pos += 1;
        }
        if pos == hi {
            break;
        }
        let start: usize = pos;
        while pos < hi && !is_space_byte(v[pos])
            invariant
                lo <= start <= pos <= hi <= v@.len(),
                forall|k: int| start <= k < pos ==> !is_space(v@[k]),
            decreases hi - pos,
        {
            pos += 1;
        }
        proof {
            assert(!is_space(v@[start as int]));
            assert(pos > start);
        }
        let ghost pre = views_of(r@);
        proof {
            let cur = v@.subrange(start as int, hi as int);
            assert(forall|j: int|
                0 <= j < pos - start ==> !is_space(#[trigger] cur[j]) && cur[j] == v@[start + j]);
            assert(pos - start < cur.len() ==> is_space(cur[pos - start]));
            lemma_tokens_peel(cur, pos - start);
            assert(cur.take(pos - start) =~= v@.subrange(start as int, pos as int));
            assert(cur.skip(pos - start) =~= v@.subrange(pos as int, hi as int));
        }
        let tok = copy_range(v, start, pos);
        r.push(tok);
        proof {
            assert(views_of(r@) =~= pre.push(v@.subrange(start as int, pos as int)));
            assert(pre + seq![v@.subrange(start as int, pos as int)] =~= views_of(r@));
            assert(views_of(r@) + tokens(v@.subrange(pos as int, hi as int)) =~= pre + (seq![
                v@.subrange(start as int, pos as int),
            ] + tokens(v@.subrange(pos as int, hi as int))));
        }
    }
    proof {
        let e = v@.subrange(pos as int, hi as int);
        assert(e.len() == 0);
        assert(tokens(e) =~= Seq::<Seq<u8>>::empty());
        assert(views_of(r@) + tokens(e) =~= views_of(r@));
    }
    r
}

/// The all-zero destination column as a runtime value.
fn lit_zero_dest() -> (r: Vec<u8>)
    ensures
        r@ == zero_dest(),
{
    let mut v: Vec<u8> = Vec::new();
    let mut i: usize = 0;
    while i < 8
        invariant
            0 <= i <= 8,
            v@.len() == i,
            forall|k: int| 0 <= k < i ==> v@[k] == 48,
        decreases 8 - i,
    {
        v.push(48u8);
        i += 1;
    }
    proof {
        assert(v@ =~= zero_dest());
    }
    v
}

/// The interface bound to the default outbound route, read from the text of
/// the kernel routing table: the first column of the first line past the
/// header whose destination column is `00000000`; `None` when no line says
/// so.
pub fn default_route_iface(content: &[u8]) -> (r: Option<Vec<u8>>)
    ensures
        match r {
            Some(v) => default_route_spec(content@) == Some(v@),
            None => default_route_spec(content@) is None,
        },
{
    let n: usize = content.len();
    let first_end = find_nl(content, 0);
    if first_end == n {
        proof {
            lemma_lines_no_nl(content@);
            assert(lines_of(content@).drop_first() =~~= Seq::<Seq<u8>>::empty());
        }
        return None;
    }
    proof {
        lemma_lines_split(content@, first_end as int);
        assert(lines_of(content@).drop_first() =~~= lines_of(content@.skip(first_end + 1)));
    }
    let mut pos: usize = first_end + 1;
    loop
        invariant
            pos <= n,
            n == content@.len(),
            default_route_spec(content@) == first_default(lines_of(content@.skip(pos as int))),
        decreases n - pos,
    {
        let j = find_nl(content, pos);
        let toks = split_tokens(content, pos, j);
        let ghost line = content@.subrange(pos as int, j as int);
        let ghost rem = content@.skip(pos as int);
        proof {
            if j == n {
                assert(rem =~= line);
                lemma_lines_no_nl(rem);
                assert(lines_of(rem)[0] == line);
                assert(lines_of(rem).drop_first() =~~= Seq::<Seq<u8>>::empty());
            } else {
                assert(forall|k: int|
                    0 <= k < j - pos ==> #[trigger] rem[k] == content@[pos + k] && rem[k] != 10);
                assert(rem[j - pos] == 10);
                lemma_lines_split(rem, j - pos);
                assert(rem.take(j - pos) =~= line);
                assert(rem.skip(j - pos + 1) =~= content@.skip(j + 1));
                assert((seq![line] + lines_of(content@.skip(j + 1)))[0] == line);
                assert((seq![line] + lines_of(content@.skip(j + 1))).drop_first() =~~= lines_of(
                    content@.skip(j + 1),
                ));
            }
        }
        let mut is_def = false;
        if toks.len() > 2 {
            let zd = lit_zero_dest();
            is_def = bytes_eq(toks[1].as_slice(), zd.as_slice());
        }
        proof {
            assert(views_of(toks@).len() == toks@.len());
            assert(toks@.len() > 2 ==> views_of(toks@)[1] == toks@[1]@ && views_of(toks@)[0]
                == toks@[0]@);
            assert(is_def == (line_default(line) is Some));
        }
        if is_def {
            let name = clone_bytes(&toks[0]);
            proof {
                assert(line_default(line) == Some(name@));
                assert(first_default(lines_of(rem)) == Some(name@));
            }
            return Some(name);
        }
        if j == n {
            proof {
                let ls = lines_of(rem);
                assert(ls[0] == line);
                assert(line_default(line) is None);
                assert(first_default(Seq::<Seq<u8>>::empty()) is None);
                assert(first_default(ls) is None);
            }
            return None;
        }
        proof {
            let ls = lines_of(rem);
            assert(ls[0] == line);
            assert(line_default(line) is None);
            assert(first_default(ls) == first_default(lines_of(content@.skip(j + 1))));
        }
        pos = j + 1;
    }
}

} // verus!
