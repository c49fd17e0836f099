//! Header hygiene for multiplexed connections: connection-scoped fields do
//! not survive past one hop and must leave before a head crosses to a
//! framed protocol.

use vstd::prelude::*;
use crate::ascii::{spec_lower, spec_trim_ows};
use crate::header::{Headers, spec_find_header, spec_headers_wf};
use crate::header::parsing::{split_commas, spec_split_commas};

verus! {

/// The wire name `keep-alive`.
pub open spec fn spec_keep_alive_name() -> Seq<u8> {
    seq![107u8, 101u8, 101u8, 112u8, 45u8, 97u8, 108u8, 105u8, 118u8, 101u8]
}

/// The wire name `proxy-connection`.
pub open spec fn spec_proxy_connection_name() -> Seq<u8> {
    seq![
        112u8, 114u8, 111u8, 120u8, 121u8, 45u8, 99u8, 111u8, 110u8, 110u8, 101u8, 99u8, 116u8,
        105u8, 111u8, 110u8,
    ]
}

/// The wire name `proxy-authenticate`.
pub open spec fn spec_proxy_authenticate_name() -> Seq<u8> {
    seq![
        112u8, 114u8, 111u8, 120u8, 121u8, 45u8, 97u8, 117u8, 116u8, 104u8, 101u8, 110u8, 116u8,
        105u8, 99u8, 97u8, 116u8, 101u8,
    ]
}

/// The wire name `proxy-authorization`.
pub open spec fn spec_proxy_authorization_name() -> Seq<u8> {
    seq![
        112u8, 114u8, 111u8, 120u8, 121u8, 45u8, 97u8, 117u8, 116u8, 104u8, 111u8, 114u8, 105u8,
        122u8, 97u8, 116u8, 105u8, 111u8, 110u8,
    ]
}

/// The wire name `trailer`.
pub open spec fn spec_trailer_name() -> Seq<u8> {
    seq![116u8, 114u8, 97u8, 105u8, 108u8, 101u8, 114u8]
}

/// The wire name `te`.
pub open spec fn spec_te_short_name() -> Seq<u8> {
    seq![116u8, 101u8]
}

/// The bytes `trailers`.
pub open spec fn spec_trailers_bytes() -> Seq<u8> {
    seq![116u8, 114u8, 97u8, 105u8, 108u8, 101u8, 114u8, 115u8]
}

/// Whether a request's `te` header may stay: it holds exactly one value,
/// `trailers`.
pub open spec fn spec_te_is_trailers(m: Seq<(Seq<u8>, Seq<Seq<u8>>)>) -> bool {
    match spec_find_header(m, spec_te_short_name()) {
        None => true,
        Some(i) => m[i].1 =~= seq![spec_trailers_bytes()],
    }
}

/// Whether `n` appears, up to ASCII case, among the trimmed comma-separated
/// pieces of `vals` that lie before position (`j`, `p`).
pub open spec fn spec_listed_upto(vals: Seq<Seq<u8>>, j: int, p: int, n: Seq<u8>) -> bool {
    exists|a: int, b: int|
        0 <= a < vals.len() && 0 <= b < spec_split_commas(vals[a]).len() && (a < j || (a == j && b
            < p)) && spec_lower(spec_trim_ows(#[trigger] spec_split_commas(vals[a])[b]))
            == spec_lower(n)
}

/// Whether the `Connection` header of `m` lists (a case variant of) the
/// name `n` in one of its comma-separated values.
pub open spec fn spec_conn_listed(m: Seq<(Seq<u8>, Seq<Seq<u8>>)>, n: Seq<u8>) -> bool {
    match spec_find_header(m, crate::proto::spec_conn_name()) {
        None => false,
        Some(i) => spec_listed_upto(m[i].1, m[i].1.len() as int, 0, n),
    }
}

/// Whether the name `n` is one the strip removes from `m`: a fixed
/// connection-scoped name, `connection` itself, `te` (unless a request keeps
/// it for `trailers`), or a name the `Connection` header lists.
pub open spec fn spec_stripped(
    m: Seq<(Seq<u8>, Seq<Seq<u8>>)>,
    is_request: bool,
    n: Seq<u8>,
) -> bool {
    ||| spec_lower(n) == crate::proto::spec_conn_name()
    ||| spec_lower(n) == spec_keep_alive_name()
    ||| spec_lower(n) == spec_proxy_connection_name()
    ||| spec_lower(n) == spec_proxy_authenticate_name()
    ||| spec_lower(n) == spec_proxy_authorization_name()
    ||| spec_lower(n) == spec_trailer_name()
    ||| spec_lower(n) == crate::proto::spec_te_name()
    ||| spec_lower(n) == crate::proto::spec_upgrade_name()
    ||| (spec_lower(n) == spec_te_short_name() && !(is_request && spec_te_is_trailers(m)))
    ||| spec_conn_listed(m, n)
}

/// The entries `x` and `y` stand in `base`, in this order.
pub open spec fn spec_pair_ordered(
    base: Seq<(Seq<u8>, Seq<Seq<u8>>)>,
    x: (Seq<u8>, Seq<Seq<u8>>),
    y: (Seq<u8>, Seq<Seq<u8>>),
) -> bool {
    exists|ia: int, ib: int|
        #![trigger base[ia], base[ib]]
        0 <= ia < ib < base.len() && base[ia] == x && base[ib] == y
}

/// Two indexed entries of `base` are ordered pairs of it.
proof fn lemma_pair_ordered_intro(base: Seq<(Seq<u8>, Seq<Seq<u8>>)>, ia: int, ib: int)
    requires
        0 <= ia < ib < base.len(),
    ensures
        spec_pair_ordered(base, base[ia], base[ib]),
{
}

/// Whether `n` matches, up to ASCII case, one of the first `upto` names.
spec fn spec_name_in(names: Seq<Seq<u8>>, upto: int, n: Seq<u8>) -> bool {
    exists|k: int| 0 <= k < upto && spec_lower(#[trigger] names[k]) == spec_lower(n)
}

/// Removes the connection-scoped headers: the fixed list (`keep-alive`,
/// `proxy-connection`, `proxy-authenticate`, `proxy-authorization`,
/// `trailer`, `transfer-encoding`, `upgrade`), every header the
/// `Connection` header names, and `Connection` itself. A request keeps `te`
/// only when its single value is `trailers`; a response loses it always.
/// Afterwards none of those names is present; every other entry of the old
/// map is still present; and the entries keep the old map's order.
#[verifier::rlimit(100)]
pub fn strip_connection_headers(headers: &mut Headers, is_request: bool)
    requires
        old(headers).wf(),
    ensures
        final(headers).wf(),
        spec_find_header(final(headers)@, crate::proto::spec_conn_name()) is None,
        spec_find_header(final(headers)@, crate::proto::spec_te_name()) is None,
        spec_find_header(final(headers)@, spec_keep_alive_name()) is None,
        spec_find_header(final(headers)@, spec_proxy_connection_name()) is None,
        spec_find_header(final(headers)@, spec_proxy_authenticate_name()) is None,
        spec_find_header(final(headers)@, spec_proxy_authorization_name()) is None,
        spec_find_header(final(headers)@, spec_trailer_name()) is None,
        spec_find_header(final(headers)@, crate::proto::spec_upgrade_name()) is None,
        !is_request || !spec_te_is_trailers(old(headers)@) ==> spec_find_header(
            final(headers)@,
            spec_te_short_name(),
        ) is None,
        forall|n: Seq<u8>|
            spec_conn_listed(old(headers)@, n) ==> spec_find_header(final(headers)@, n) is None,
        forall|t: int|
            0 <= t < old(headers)@.len() && !spec_stripped(
                old(headers)@,
                is_request,
                (#[trigger] old(headers)@[t]).0,
            ) ==> final(headers)@.contains(old(headers)@[t]),
        forall|j: int|
            0 <= j < final(headers)@.len() ==> old(headers)@.contains(#[trigger] final(headers)@[j]),
        forall|a: int, b: int|
            0 <= a < b < final(headers)@.len() ==> spec_pair_ordered(
                old(headers)@,
                #[trigger] final(headers)@[a],
                #[trigger] final(headers)@[b],
            ),
    {
    let ghost base = old(headers)@;
    let te_short: [u8; 2] = [116, 101];
    proof {
        assert(te_short@ =~= spec_te_short_name());
    }
    let keep_te = if is_request {
        match headers.get_raw(te_short.as_slice()) {
            Some(vals) => {
                let ghost ti = spec_find_header(base, spec_te_short_name()).unwrap();
                proof {
                    crate::header::lemma_find_some_bounds(base, spec_te_short_name());
                    assert(vals.deep_view() == base[ti].1);
                }
                if vals.len() == 1 {
                    let trailers: [u8; 8] = [116, 114, 97, 105, 108, 101, 114, 115];
                    proof {
                        assert(trailers@ =~= spec_trailers_bytes());
                        assert(vals.deep_view()[0] == vals@[0].deep_view());
                        assert(vals@[0].deep_view() =~= vals@[0]@);
                    }
                    let r = crate::method::bytes_eq(vals[0].as_slice(), trailers.as_slice());
                    proof {
                        if r {
                            assert(base[ti].1 =~= seq![spec_trailers_bytes()]);
                        } else {
                            assert(base[ti].1[0] != spec_trailers_bytes());
                            if base[ti].1 =~= seq![spec_trailers_bytes()] {
                                assert(base[ti].1[0] == spec_trailers_bytes());
                            }
                        }
                    }
                    r
                } else {
                    proof {
                        if base[ti].1 =~= seq![spec_trailers_bytes()] {
                            assert(base[ti].1.len() == 1);
                        }
                    }
                    false
                }
            },
            None => true,
        }
    } else {
        false
    };
    proof {
        assert(keep_te == (is_request && spec_te_is_trailers(base)));
        assert(headers@ == base);
        assert forall|a: int, b: int|
            0 <= a < b < headers@.len() implies spec_pair_ordered(
            base,
            #[trigger] headers@[a],
            #[trigger] headers@[b],
        ) by {
            lemma_pair_ordered_intro(base, a, b);
        }
        assert forall|t: int| 0 <= t < headers@.len() implies base.contains(
            #[trigger] headers@[t],
        ) by {
            assert(base[t] == headers@[t]);
        }
    }
    // drop every name the Connection header lists
    let conn_name: [u8; 10] = [99, 111, 110, 110, 101, 99, 116, 105, 111, 110];
    proof {
        assert(conn_name@ =~= crate::proto::spec_conn_name());
    }
    let listed = headers.get_raw(conn_name.as_slice());
    match listed {
        Some(vals) => {
            let ghost ci = spec_find_header(base, crate::proto::spec_conn_name()).unwrap();
            let ghost vseq = vals.deep_view();
            proof {
                crate::header::lemma_find_some_bounds(base, crate::proto::spec_conn_name());
                assert(vseq == base[ci].1);
            }
            let mut j: usize = 0;
            while j < vals.len()
                invariant
                    base == old(headers)@,
                    headers.wf(),
                    vseq == vals.deep_view(),
                    vseq == base[ci as int].1,
                    0 <= j <= vals@.len(),
                    vseq.len() == vals@.len(),
                    forall|t: int|
                        0 <= t < headers@.len() ==> base.contains(#[trigger] headers@[t]),
                    forall|n: Seq<u8>|
                        spec_listed_upto(vseq, j as int, 0, n) ==> spec_find_header(
                            headers@,
                            n,
                        ) is None,
                    forall|t: int|
                        0 <= t < base.len() && !spec_listed_upto(
                            vseq,
                            j as int,
                            0,
                            (#[trigger] base[t]).0,
                        ) ==> headers@.contains(base[t]),
                    forall|a: int, b: int|
                        0 <= a < b < headers@.len() ==> spec_pair_ordered(
                            base,
                            #[trigger] headers@[a],
                            #[trigger] headers@[b],
                        ),
                decreases vals@.len() - j,
            {
                let pieces = split_commas(vals[j].as_slice());
                proof {
                    assert(vals@[j as int].deep_view() =~= vals@[j as int]@);
                    assert(vals@[j as int]@ == vseq[j as int]);
                    assert(pieces.deep_view() == spec_split_commas(vseq[j as int]));
                }
                let mut p: usize = 0;
                while p < pieces.len()
                    invariant
                        base == old(headers)@,
                        headers.wf(),
                        vseq == vals.deep_view(),
                        vseq == base[ci as int].1,
                        0 <= j < vals@.len(),
                        vseq.len() == vals@.len(),
                        pieces.deep_view() == spec_split_commas(vseq[j as int]),
                        0 <= p <= pieces@.len(),
                        pieces@.len() == spec_split_commas(vseq[j as int]).len(),
                        forall|t: int|
                            0 <= t < headers@.len() ==> base.contains(#[trigger] headers@[t]),
                        forall|n: Seq<u8>|
                            spec_listed_upto(vseq, j as int, p as int, n) ==> spec_find_header(
                                headers@,
                                n,
                            ) is None,
                        forall|t: int|
                            0 <= t < base.len() && !spec_listed_upto(
                                vseq,
                                j as int,
                                p as int,
                                (#[trigger] base[t]).0,
                            ) ==> headers@.contains(base[t]),
                        forall|a: int, b: int|
                            0 <= a < b < headers@.len() ==> spec_pair_ordered(
                                base,
                                #[trigger] headers@[a],
                                #[trigger] headers@[b],
                            ),
                    decreases pieces@.len() - p,
                {
                    let name = crate::ascii::trim_ows(pieces[p].as_slice());
                    let ghost pre = headers@;
                    let ghost pname = name@;
                    proof {
                        assert(pieces@[p as int].deep_view() =~= pieces@[p as int]@);
                        assert(pieces@[p as int]@ == spec_split_commas(vseq[j as int])[p as int]);
                        assert(pname == spec_trim_ows(
                            spec_split_commas(vseq[j as int])[p as int],
                        ));
                    }
                    headers.remove_raw(name.as_slice());
                    proof {
                        lemma_remove_stays_within(pre, base, pname, headers@);
                        lemma_remove_keeps_order(base, pre, pname, headers@);
                        crate::header::lemma_remove_gone(pre, pname);
                        crate::header::lemma_find_none_means_absent(headers@, pname);
                        assert forall|n: Seq<u8>|
                            spec_listed_upto(
                                vseq,
                                j as int,
                                p as int + 1,
                                n,
                            ) implies spec_find_header(headers@, n) is None by {
                            if spec_listed_upto(vseq, j as int, p as int, n) {
                                lemma_remove_keeps_absent(pre, pname, n);
                            } else {
                                let (a, b) = choose|a: int, b: int|
                                    0 <= a < vseq.len() && 0 <= b < spec_split_commas(
                                        vseq[a],
                                    ).len() && (a < j as int || (a == j as int && b < p as int
                                        + 1)) && spec_lower(
                                        spec_trim_ows(spec_split_commas(vseq[a])[b]),
                                    ) == spec_lower(n);
                                assert(a == j as int && b == p as int);
                                assert(spec_lower(n) == spec_lower(pname));
                                crate::http::head::lemma_absent_means_find_none(headers@, n);
                            }
                        }
                        assert forall|t: int|
                            0 <= t < base.len() && !spec_listed_upto(
                                vseq,
                                j as int,
                                p as int + 1,
                                (#[trigger] base[t]).0,
                            ) implies headers@.contains(base[t]) by {
                            assert(!spec_listed_upto(vseq, j as int, p as int, base[t].0)) by {
                                if spec_listed_upto(vseq, j as int, p as int, base[t].0) {
                                    let (a, b) = choose|a: int, b: int|
                                        0 <= a < vseq.len() && 0 <= b < spec_split_commas(
                                            vseq[a],
                                        ).len() && (a < j as int || (a == j as int && b
                                            < p as int)) && spec_lower(
                                            spec_trim_ows(spec_split_commas(vseq[a])[b]),
                                        ) == spec_lower(base[t].0);
                                    assert(spec_listed_upto(
                                        vseq,
                                        j as int,
                                        p as int + 1,
                                        base[t].0,
                                    ));
                                }
                            }
                            assert(spec_lower(base[t].0) != spec_lower(pname)) by {
                                if spec_lower(base[t].0) == spec_lower(pname) {
                                    assert(spec_listed_upto(
                                        vseq,
                                        j as int,
                                        p as int + 1,
                                        base[t].0,
                                    ));
                                }
                            }
                            assert(pre.contains(base[t]));
                            lemma_remove_keeps_entry(pre, pname, headers@, base[t]);
                        }
                    }
                    p = p + 1;
                }
                proof {
                    let plen = spec_split_commas(vseq[j as int]).len() as int;
                    assert forall|n: Seq<u8>|
                        spec_listed_upto(vseq, j as int + 1, 0int, n) implies spec_find_header(
                        headers@,
                        n,
                    ) is None by {
                        let (a, b) = choose|a: int, b: int|
                            0 <= a < vseq.len() && 0 <= b < spec_split_commas(vseq[a]).len() && (a
                                < j as int + 1 || (a == j as int + 1 && b < 0)) && spec_lower(
                                spec_trim_ows(spec_split_commas(vseq[a])[b]),
                            ) == spec_lower(n);
                        assert(a < j as int || (a == j as int && b < plen));
                        assert(spec_listed_upto(vseq, j as int, plen, n));
                    }
                    assert forall|t: int|
                        0 <= t < base.len() && !spec_listed_upto(
                            vseq,
                            j as int + 1,
                            0int,
                            (#[trigger] base[t]).0,
                        ) implies headers@.contains(base[t]) by {
                        assert(!spec_listed_upto(vseq, j as int, plen, base[t].0)) by {
                            if spec_listed_upto(vseq, j as int, plen, base[t].0) {
                                let (a, b) = choose|a: int, b: int|
                                    0 <= a < vseq.len() && 0 <= b < spec_split_commas(
                                        vseq[a],
                                    ).len() && (a < j as int || (a == j as int && b < plen))
                                        && spec_lower(spec_trim_ows(spec_split_commas(vseq[a])[b]))
                                        == spec_lower(base[t].0);
                                assert(spec_listed_upto(vseq, j as int + 1, 0int, base[t].0));
                            }
                        }
                    }
                }
                j = j + 1;
            }
            proof {
                assert forall|n: Seq<u8>| spec_conn_listed(base, n) implies spec_find_header(
                    headers@,
                    n,
                ) is None by {
                    assert(spec_listed_upto(vseq, vseq.len() as int, 0int, n)) by {
                        let (a, b) = choose|a: int, b: int|
                            0 <= a < vseq.len() && 0 <= b < spec_split_commas(vseq[a]).len() && (a
                                < vseq.len() as int || (a == vseq.len() as int && b < 0))
                                && spec_lower(spec_trim_ows(spec_split_commas(vseq[a])[b]))
                                == spec_lower(n);
                        assert(a < j as int || (a == j as int && b < 0));
                    }
                }
                assert forall|t: int|
                    0 <= t < base.len() && !spec_conn_listed(
                        base,
                        (#[trigger] base[t]).0,
                    ) implies headers@.contains(base[t]) by {
                    assert(!spec_listed_upto(vseq, j as int, 0int, base[t].0)) by {
                        if spec_listed_upto(vseq, j as int, 0int, base[t].0) {
                            assert(spec_conn_listed(base, base[t].0));
                        }
                    }
                }
            }
        },
        None => {
            proof {
                assert(forall|n: Seq<u8>| !spec_conn_listed(base, n));
                assert(forall|t: int|
                    0 <= t < headers@.len() ==> base.contains(#[trigger] headers@[t]));
            }
        },
    }
    // then the fixed list, `te` under its rule, and `connection` itself
    let mut names: Vec<Vec<u8>> = Vec::new();
    names.push(vec_of(&[107, 101, 101, 112, 45, 97, 108, 105, 118, 101]));
    names.push(
        vec_of(&[112, 114, 111, 120, 121, 45, 99, 111, 110, 110, 101, 99, 116, 105, 111, 110]),
    );
    names.push(
        vec_of(
            &[
                112, 114, 111, 120, 121, 45, 97, 117, 116, 104, 101, 110, 116, 105, 99, 97, 116,
                101,
            ],
        ),
    );
    names.push(
        vec_of(
            &[
                112, 114, 111, 120, 121, 45, 97, 117, 116, 104, 111, 114, 105, 122, 97, 116, 105,
                111, 110,
            ],
        ),
    );
    names.push(vec_of(&[116, 114, 97, 105, 108, 101, 114]));
    names.push(
        vec_of(&[116, 114, 97, 110, 115, 102, 101, 114, 45, 101, 110, 99, 111, 100, 105, 110, 103]),
    );
    names.push(vec_of(&[117, 112, 103, 114, 97, 100, 101]));
    if !keep_te {
        names.push(vec_of(&[116, 101]));
    }
    names.push(vec_of(&[99, 111, 110, 110, 101, 99, 116, 105, 111, 110]));
    let ghost nseq = names.deep_view();
    let mut i: usize = 0;
    while i < names.len()
        invariant
            base == old(headers)@,
            headers.wf(),
            nseq == names.deep_view(),
            0 <= i <= names@.len(),
            nseq.len() == names@.len(),
            forall|t: int| 0 <= t < headers@.len() ==> base.contains(#[trigger] headers@[t]),
            forall|k: int|
                0 <= k < i ==> spec_find_header(headers@, (#[trigger] names@[k])@) is None,
            forall|n: Seq<u8>|
                spec_conn_listed(base, n) ==> spec_find_header(headers@, n) is None,
            forall|t: int|
                0 <= t < base.len() && !spec_conn_listed(base, (#[trigger] base[t]).0)
                    && !spec_name_in(nseq, i as int, base[t].0) ==> headers@.contains(base[t]),
            forall|a: int, b: int|
                0 <= a < b < headers@.len() ==> spec_pair_ordered(
                    base,
                    #[trigger] headers@[a],
                    #[trigger] headers@[b],
                ),
        decreases names@.len() - i,
    {
        let ghost pre = headers@;
        let ghost pname = names@[i as int]@;
        proof {
            assert(nseq[i as int] == names@[i as int].deep_view());
            assert(names@[i as int].deep_view() =~= pname);
        }
        headers.remove_raw(names[i].as_slice());
        proof {
            lemma_remove_stays_within(pre, base, pname, headers@);
            lemma_remove_keeps_order(base, pre, pname, headers@);
            crate::header::lemma_remove_gone(pre, pname);
            assert forall|k: int|
                0 <= k < i + 1 implies spec_find_header(headers@, (#[trigger] names@[k])@)
                is None by {
                if k < i {
                    lemma_remove_keeps_absent(pre, names@[i as int]@, names@[k]@);
                }
            }
            assert forall|n: Seq<u8>| spec_conn_listed(base, n) implies spec_find_header(
                headers@,
                n,
            ) is None by {
                lemma_remove_keeps_absent(pre, pname, n);
            }
            assert forall|t: int|
                0 <= t < base.len() && !spec_conn_listed(base, (#[trigger] base[t]).0)
                    && !spec_name_in(nseq, i as int + 1, base[t].0) implies headers@.contains(
                base[t],
            ) by {
                assert(!spec_name_in(nseq, i as int, base[t].0)) by {
                    if spec_name_in(nseq, i as int, base[t].0) {
                        let k = choose|k: int|
                            0 <= k < i as int && spec_lower(#[trigger] nseq[k]) == spec_lower(
                                base[t].0,
                            );
                        assert(spec_name_in(nseq, i as int + 1, base[t].0));
                    }
                }
                assert(spec_lower(base[t].0) != spec_lower(pname)) by {
                    if spec_lower(base[t].0) == spec_lower(pname) {
                        assert(spec_lower(nseq[i as int]) == spec_lower(base[t].0));
                        assert(spec_name_in(nseq, i as int + 1, base[t].0));
                    }
                }
                assert(pre.contains(base[t]));
                lemma_remove_keeps_entry(pre, pname, headers@, base[t]);
            }
        }
        i = i + 1;
    }
    proof {
        assert(names@[names@.len() - 1]@ =~= crate::proto::spec_conn_name());
        assert(names@[5]@ =~= crate::proto::spec_te_name());
        assert(names@[0]@ =~= spec_keep_alive_name());
        assert(names@[1]@ =~= spec_proxy_connection_name());
        assert(names@[2]@ =~= spec_proxy_authenticate_name());
        assert(names@[3]@ =~= spec_proxy_authorization_name());
        assert(names@[4]@ =~= spec_trailer_name());
        assert(names@[6]@ =~= crate::proto::spec_upgrade_name());
        if !keep_te {
            assert(names@[7]@ =~= spec_te_short_name());
        }
        assert forall|t: int|
            0 <= t < base.len() && !spec_stripped(
                base,
                is_request,
                (#[trigger] base[t]).0,
            ) implies headers@.contains(base[t]) by {
            let n = base[t].0;
            assert(!spec_name_in(nseq, nseq.len() as int, n)) by {
                if spec_name_in(nseq, nseq.len() as int, n) {
                    let k = choose|k: int|
                        0 <= k < nseq.len() && spec_lower(#[trigger] nseq[k]) == spec_lower(n);
                    assert(nseq[k] == names@[k].deep_view());
                    assert(names@[k].deep_view() =~= names@[k]@);
                    lemma_lower_of_lower(names@[k]@);
                    if k == 0 {
                        assert(spec_lower(n) == spec_keep_alive_name());
                    } else if k == 1 {
                        assert(spec_lower(n) == spec_proxy_connection_name());
                    } else if k == 2 {
                        assert(spec_lower(n) == spec_proxy_authenticate_name());
                    } else if k == 3 {
                        assert(spec_lower(n) == spec_proxy_authorization_name());
                    } else if k == 4 {
                        assert(spec_lower(n) == spec_trailer_name());
                    } else if k == 5 {
                        assert(spec_lower(n) == crate::proto::spec_te_name());
                    } else if k == 6 {
                        assert(spec_lower(n) == crate::proto::spec_upgrade_name());
                    } else if !keep_te && k == 7 {
                        assert(spec_lower(n) == spec_te_short_name());
                    } else {
                        assert(spec_lower(n) == crate::proto::spec_conn_name());
                    }
                }
            }
        }
    }
}

/// Lower-casing a byte string twice is lower-casing it once.
proof fn lemma_lower_of_lower(s: Seq<u8>)
    ensures
        spec_lower(spec_lower(s)) == spec_lower(s),
{
    assert(spec_lower(spec_lower(s)) =~= spec_lower(s));
}

/// Copies a byte array into a vector.
fn vec_of(b: &[u8]) -> (r: Vec<u8>)
    ensures
        r@ == b@,
{
    vstd::slice::slice_to_vec(b)
}

/// Removing an entry keeps every remaining entry within the base set it
/// already came from.
proof fn lemma_remove_stays_within(
    m: Seq<(Seq<u8>, Seq<Seq<u8>>)>,
    base: Seq<(Seq<u8>, Seq<Seq<u8>>)>,
    name: Seq<u8>,
    m2: Seq<(Seq<u8>, Seq<Seq<u8>>)>,
)
    requires
        forall|t: int| 0 <= t < m.len() ==> base.contains(#[trigger] m[t]),
        m2 == (match spec_find_header(m, name) {
            Some(i) => m.remove(i),
            None => m,
        }),
    ensures
        forall|t: int| 0 <= t < m2.len() ==> base.contains(#[trigger] m2[t]),
{
    match spec_find_header(m, name) {
        None => {},
        Some(i) => {
            crate::header::lemma_find_some_bounds(m, name);
            assert forall|t: int| 0 <= t < m2.len() implies base.contains(#[trigger] m2[t]) by {
                if t < i {
                    assert(m2[t] == m[t]);
                } else {
                    assert(m2[t] == m[t + 1]);
                }
            }
        },
    }
}

/// An entry whose name differs from the removed one, up to case, survives
/// the removal.
proof fn lemma_remove_keeps_entry(
    m: Seq<(Seq<u8>, Seq<Seq<u8>>)>,
    name: Seq<u8>,
    m2: Seq<(Seq<u8>, Seq<Seq<u8>>)>,
    e: (Seq<u8>, Seq<Seq<u8>>),
)
    requires
        m2 == (match spec_find_header(m, name) {
            Some(i) => m.remove(i),
            None => m,
        }),
        m.contains(e),
        spec_lower(e.0) != spec_lower(name),
    ensures
        m2.contains(e),
{
    match spec_find_header(m, name) {
        None => {},
        Some(i) => {
            crate::header::lemma_find_some_bounds(m, name);
            let t = choose|t: int| 0 <= t < m.len() && m[t] == e;
            assert(t != i);
            if t < i {
                assert(m2[t] == m[t]);
                assert(m2.contains(m2[t]));
            } else {
                assert(m2[t - 1] == m[t]);
                assert(m2.contains(m2[t - 1]));
            }
        },
    }
}

/// The surviving entries of a removal keep their relative base order.
proof fn lemma_remove_keeps_order(
    base: Seq<(Seq<u8>, Seq<Seq<u8>>)>,
    m: Seq<(Seq<u8>, Seq<Seq<u8>>)>,
    name: Seq<u8>,
    m2: Seq<(Seq<u8>, Seq<Seq<u8>>)>,
)
    requires
        m2 == (match spec_find_header(m, name) {
            Some(i) => m.remove(i),
            None => m,
        }),
        forall|a: int, b: int|
            0 <= a < b < m.len() ==> spec_pair_ordered(base, #[trigger] m[a], #[trigger] m[b]),
    ensures
        forall|a: int, b: int|
            0 <= a < b < m2.len() ==> spec_pair_ordered(base, #[trigger] m2[a], #[trigger] m2[b]),
{
    match spec_find_header(m, name) {
        None => {},
        Some(i) => {
            crate::header::lemma_find_some_bounds(m, name);
            assert forall|a: int, b: int|
                0 <= a < b < m2.len() implies spec_pair_ordered(
                base,
                #[trigger] m2[a],
                #[trigger] m2[b],
            ) by {
                let a2: int = if a < i {
                    a
                } else {
                    a + 1
                };
                let b2: int = if b < i {
                    b
                } else {
                    b + 1
                };
                assert(m2[a] == m[a2]);
                assert(m2[b] == m[b2]);
                assert(spec_pair_ordered(base, m[a2], m[b2]));
            }
        },
    }
}

/// A name absent from a map stays absent when another entry is removed.
proof fn lemma_remove_keeps_absent(m: Seq<(Seq<u8>, Seq<Seq<u8>>)>, removed: Seq<u8>, name: Seq<u8>)
    requires
        spec_find_header(m, name) is None,
    ensures
        spec_find_header(
            (match spec_find_header(m, removed) {
                Some(i) => m.remove(i),
                None => m,
            }),
            name,
        ) is None,
{
    match spec_find_header(m, removed) {
        None => {},
        Some(i) => {
            crate::header::lemma_find_some_bounds(m, removed);
            crate::header::lemma_find_none_means_absent(m, name);
            let m2 = m.remove(i);
            assert forall|j: int| 0 <= j < m2.len() implies spec_lower((#[trigger] m2[j]).0)
                != spec_lower(name) by {
                if j < i {
                    assert(m2[j] == m[j]);
                } else {
                    assert(m2[j] == m[j + 1]);
                }
            }
            crate::http::head::lemma_absent_means_find_none(m2, name);
        },
    }
}

} // verus!
