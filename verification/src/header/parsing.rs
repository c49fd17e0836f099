//! Helpers shared by typed header implementations: splitting and joining
//! comma-delimited value lists.

use vstd::prelude::*;

verus! {

/// Splits `raw` at commas and spaces, dropping empty pieces — the shape the
/// comma-delimited header values take after parsing.
pub open spec fn spec_split_commas(s: Seq<u8>) -> Seq<Seq<u8>>
    decreases s.len(),
{
    spec_split_commas_acc(s, Seq::empty())
}

/// Helper for [`spec_split_commas`]: accumulates the current piece.
pub open spec fn spec_split_commas_acc(s: Seq<u8>, cur: Seq<u8>) -> Seq<Seq<u8>>
    decreases s.len(),
{
    if s.len() == 0 {
        if cur.len() == 0 {
            Seq::empty()
        } else {
            seq![cur]
        }
    } else if s[0] == 44 || s[0] == 32 {
        if cur.len() == 0 {
            spec_split_commas_acc(s.drop_first(), Seq::empty())
        } else {
            seq![cur] + spec_split_commas_acc(s.drop_first(), Seq::empty())
        }
    } else {
        spec_split_commas_acc(s.drop_first(), cur.push(s[0]))
    }
}

/// Splits a raw value at commas and spaces into non-empty pieces.
pub fn split_commas(raw: &[u8]) -> (r: Vec<Vec<u8>>)
    ensures
        r.deep_view() == spec_split_commas(raw@),
{
    let mut out: Vec<Vec<u8>> = Vec::new();
    let mut cur: Vec<u8> = Vec::new();
    let mut i: usize = 0;
    proof {
        assert(raw@.subrange(0, raw@.len() as int) =~= raw@);
        assert(out.deep_view() =~= Seq::<Seq<u8>>::empty());
        assert(cur@ =~= Seq::<u8>::empty());
        assert(out.deep_view() + spec_split_commas_acc(raw@, cur@) =~= spec_split_commas_acc(
            raw@,
            Seq::empty(),
        ));
    }
    while i < raw.len()
        invariant
            0 <= i <= raw@.len(),
            spec_split_commas(raw@) == out.deep_view() + spec_split_commas_acc(
                raw@.subrange(i as int, raw@.len() as int),
                cur@,
            ),
        decreases raw@.len() - i,
    {
        let ghost rest = raw@.subrange(i as int, raw@.len() as int);
        let ghost rest2 = raw@.subrange(i as int + 1, raw@.len() as int);
        let ghost oldout = out.deep_view();
        let ghost oldcur = cur@;
        proof {
            assert(rest[0] == raw@[i as int]);
            assert(rest.drop_first() =~= rest2);
        }
        let b = raw[i];
        if b == 44 || b == 32 {
            if cur.len() > 0 {
                out.push(cur);
                cur = Vec::new();
                proof {
                    assert(out.deep_view() =~~= oldout + seq![oldcur]);
                    assert(cur@ =~= Seq::<u8>::empty());
                    assert(spec_split_commas_acc(rest, oldcur) == seq![oldcur]
                        + spec_split_commas_acc(rest2, Seq::empty()));
                    assert((oldout + seq![oldcur]) + spec_split_commas_acc(rest2, Seq::empty())
                        =~= oldout + (seq![oldcur] + spec_split_commas_acc(rest2, Seq::empty())));
                }
            } else {
                proof {
                    assert(oldcur =~= Seq::<u8>::empty());
                    assert(spec_split_commas_acc(rest, oldcur) == spec_split_commas_acc(
                        rest2,
                        Seq::empty(),
                    ));
                }
            }
        } else {
            cur.push(b);
            proof {
                assert(cur@ == oldcur.push(b));
                assert(spec_split_commas_acc(rest, oldcur) == spec_split_commas_acc(
                    rest2,
                    oldcur.push(b),
                ));
            }
        }
        i = i + 1;
    }
    proof {
        assert(raw@.subrange(raw@.len() as int, raw@.len() as int) =~= Seq::<u8>::empty());
    }
    if cur.len() > 0 {
        let ghost oldout = out.deep_view();
        let ghost oldcur = cur@;
        out.push(cur);
        proof {
            assert(out.deep_view() =~~= oldout + seq![oldcur]);
            assert(spec_split_commas_acc(Seq::empty(), oldcur) == seq![oldcur]);
        }
    } else {
        proof {
            assert(cur@ =~= Seq::<u8>::empty());
            assert(spec_split_commas_acc(Seq::empty(), cur@) =~= Seq::<Seq<u8>>::empty());
            assert(out.deep_view() + Seq::<Seq<u8>>::empty() =~= out.deep_view());
        }
    }
    out
}

/// Joins pieces with `", "` between them — the wire form of a
/// comma-delimited header value.
pub open spec fn spec_join_commas(parts: Seq<Seq<u8>>) -> Seq<u8>
    decreases parts.len(),
{
    if parts.len() == 0 {
        Seq::empty()
    } else if parts.len() == 1 {
        parts[0]
    } else {
        spec_join_commas(parts.drop_last()) + seq![44u8, 32u8] + parts.last()
    }
}

/// Appends the bytes of `src` to `dst`.
pub fn extend_bytes(dst: &mut Vec<u8>, src: &[u8])
    ensures
        final(dst)@ == old(dst)@ + src@,
{
    let mut j: usize = 0;
    while j < src.len()
        invariant
            0 <= j <= src@.len(),
            dst@ == old(dst)@ + src@.take(j as int),
        decreases src@.len() - j,
    {
        dst.push(src[j]);
        j = j + 1;
        proof {
            assert(dst@ =~= old(dst)@ + src@.take(j as int));
        }
    }
    proof {
        assert(src@.take(src@.len() as int) =~= src@);
    }
}

/// Joins value pieces with `", "`.
pub fn join_commas(parts: &Vec<Vec<u8>>) -> (r: Vec<u8>)
    ensures
        r@ == spec_join_commas(parts.deep_view()),
{
    let mut out: Vec<u8> = Vec::new();
    let mut i: usize = 0;
    while i < parts.len()
        invariant
            0 <= i <= parts@.len(),
            out@ == spec_join_commas(parts.deep_view().take(i as int)),
        decreases parts@.len() - i,
    {
        if i > 0 {
            out.push(44);
            out.push(32);
        }
        extend_bytes(&mut out, parts[i].as_slice());
        i = i + 1;
        proof {
            let pre = parts.deep_view().take(i as int);
            assert(pre.drop_last() =~= parts.deep_view().take(i as int - 1));
            assert(pre.last() == parts.deep_view()[i as int - 1]);
        }
    }
    proof {
        assert(parts.deep_view().take(parts@.len() as int) =~= parts.deep_view());
    }
    out
}


/// Splits one comma-delimited raw value into its pieces.
pub fn from_one_comma_delimited(raw: &[u8]) -> (r: Vec<Vec<u8>>)
    ensures
        r.deep_view() == spec_split_commas(raw@),
{
    split_commas(raw)
}

/// Writes pieces as one comma-delimited value.
pub fn fmt_comma_delimited(parts: &Vec<Vec<u8>>) -> (r: Vec<u8>)
    ensures
        r@ == spec_join_commas(parts.deep_view()),
{
    join_commas(parts)
}
} // verus!
