//! Properties of the library as a whole, stated over the models that the
//! functions' contracts use.
use vstd::prelude::*;

use crate::codec::read_len;
use crate::compression::{first_accepted, method_token, CompressionMethod};
use crate::fields::{
    distinct_keys,
    insert_all,
    lemma_insert_all_distinct,
    lemma_insert_entry_distinct,
    lookup,
};
use crate::response::{chosen_method, with_encoding};
use crate::router::{refusal_response, register, route_lookup, HandlerNotFound};
use crate::codec::{brotli_result, gzip_result};
use crate::request::{
    head_and_body,
    header_pairs,
    param_pairs,
    request_outcome,
    url_params_spec,
};
use crate::response::{compressed_body, ResponseBody};
use crate::text::{
    all_white_space,
    dec_int,
    dec_nat,
    digit_char,
    find_from,
    lemma_find_from_bounds,
    matches_at,
    split,
    split_once,
};
use vstd::utf8::encode_utf8;

verus! {

/// Registering a handler for a path and method that already have one
/// leaves the routes unchanged: the first registration stays.
pub proof fn law_first_handler_stays<H>(
    t: Map<Seq<char>, Map<Seq<char>, H>>,
    path: Seq<char>,
    method: Seq<char>,
    h: H,
)
    requires
        t.dom().contains(path),
        t[path].dom().contains(method),
    ensures
        register(t, path, method, h) == t,
{
}

/// A handler registered for a path and method that had none is the one a
/// request with that method and path reaches; requests to other paths
/// reach what they reached before, and other methods on the same path are
/// refused with `NoMethod` unless a handler serves them.
pub proof fn law_registered_handler_found<H>(
    t: Map<Seq<char>, Map<Seq<char>, H>>,
    path: Seq<char>,
    method: Seq<char>,
    h: H,
)
    requires
        !(t.dom().contains(path) && t[path].dom().contains(method)),
    ensures
        route_lookup(register(t, path, method, h), method, path) == Ok::<H, HandlerNotFound>(h),
        forall|m2: Seq<char>, p2: Seq<char>|
            p2 != path ==> #[trigger] route_lookup(register(t, path, method, h), m2, p2)
                == route_lookup(t, m2, p2),
        forall|m2: Seq<char>|
            m2 != method ==> #[trigger] route_lookup(register(t, path, method, h), m2, path) == if t.dom().contains(path) {
                route_lookup(t, m2, path)
            } else {
                Err::<H, HandlerNotFound>(HandlerNotFound::NoMethod)
            },
{
    let r = register(t, path, method, h);
    assert forall|m2: Seq<char>, p2: Seq<char>| p2 != path implies #[trigger] route_lookup(
        r,
        m2,
        p2,
    ) == route_lookup(t, m2, p2) by {
        assert(r.dom().contains(p2) == t.dom().contains(p2));
    }
}

/// A request is refused with `NoPath` exactly when no handler exists for
/// its path, and with `NoMethod` exactly when handlers exist for the path
/// but none for its method.
pub proof fn law_refusal_reasons<H>(t: Map<Seq<char>, Map<Seq<char>, H>>, m: Seq<char>, p: Seq<char>)
    ensures
        route_lookup(t, m, p) == Err::<H, HandlerNotFound>(HandlerNotFound::NoPath) <==> !t.dom().contains(p),
        route_lookup(t, m, p) == Err::<H, HandlerNotFound>(HandlerNotFound::NoMethod) <==> (t.dom().contains(p)
            && !t[p].dom().contains(m)),
{
}

/// A request to an unknown path is answered `404 Not Found`, and one with a
/// method the path does not serve `405 Method Not Allowed`.
pub proof fn law_refusal_status_lines()
    ensures
        refusal_response(HandlerNotFound::NoPath).0.take(24) == "HTTP/1.1 404 Not Found\r\n"@,
        refusal_response(HandlerNotFound::NoMethod).0.take(33)
            == "HTTP/1.1 405 Method Not Allowed\r\n"@,
{
    reveal_strlit("HTTP/1.1 404 Not Found\r\n");
    reveal_strlit("HTTP/1.1 405 Method Not Allowed\r\n");
    reveal_strlit("HTTP/1.1 ");
    reveal_strlit(" ");
    reveal_strlit("Not Found");
    reveal_strlit("Method Not Allowed");
    reveal_strlit("\r\nContent-Length: ");
    assert(dec_nat(4) == seq![digit_char(4)]);
    assert(dec_nat(40) == dec_nat(4).push(digit_char(0)));
    assert(dec_nat(404) == dec_nat(40).push(digit_char(4)));
    assert(dec_nat(405) == dec_nat(40).push(digit_char(5)));
    assert(dec_int(404) =~= seq!['4', '0', '4']);
    assert(dec_int(405) =~= seq!['4', '0', '5']);
    assert(refusal_response(HandlerNotFound::NoPath).0.take(24) =~= "HTTP/1.1 404 Not Found\r\n"@);
    assert(refusal_response(HandlerNotFound::NoMethod).0.take(33)
        =~= "HTTP/1.1 405 Method Not Allowed\r\n"@);
}

/// A coding is applied only when the client accepts it; Brotli is preferred
/// over gzip; a client that names no coding gets none.
pub proof fn law_coding_choice(accepted: Option<Seq<CompressionMethod>>)
    ensures
        chosen_method(accepted) matches Some(m) ==> accepted matches Some(ms) && ms.contains(m),
        accepted is None ==> chosen_method(accepted) is None,
        accepted matches Some(ms) ==> (ms.contains(CompressionMethod::Brotli) ==> chosen_method(
            accepted,
        ) == Some(CompressionMethod::Brotli)),
        accepted matches Some(ms) ==> (!ms.contains(CompressionMethod::Brotli) && ms.contains(
            CompressionMethod::Gzip,
        ) ==> chosen_method(accepted) == Some(CompressionMethod::Gzip)),
        accepted matches Some(ms) ==> (!ms.contains(CompressionMethod::Brotli) && !ms.contains(
            CompressionMethod::Gzip,
        ) ==> chosen_method(accepted) is None),
{
    let order = seq![CompressionMethod::Brotli, CompressionMethod::Gzip];
    assert(order.drop_first() =~= seq![CompressionMethod::Gzip]);
    assert(order.drop_first().drop_first() =~= Seq::<CompressionMethod>::empty());
    reveal_with_fuel(first_accepted, 3);
    if let Some(ms) = accepted {
        assert(first_accepted(order.drop_first().drop_first(), ms) is None);
        assert(order[0] == CompressionMethod::Brotli);
        assert(order.drop_first()[0] == CompressionMethod::Gzip);
    }
}

/// When a coding is applied, `Content-Encoding` names it; otherwise the
/// header fields stay as they were.
pub proof fn law_encoding_announced(
    h: Seq<(Seq<char>, Seq<char>)>,
    used: Option<CompressionMethod>,
)
    requires
        distinct_keys(h),
    ensures
        used matches Some(m) ==> lookup(with_encoding(h, used), "Content-Encoding"@) == Some(
            method_token(m),
        ),
        used is None ==> with_encoding(h, used) == h,
{
    if let Some(m) = used {
        lemma_insert_entry_distinct(h, "Content-Encoding"@, method_token(m));
    }
}

/// The value the last pair with key `k` carries, if any.
pub open spec fn last_value(pairs: Seq<(Seq<char>, Seq<char>)>, k: Seq<char>) -> Option<Seq<char>>
    decreases pairs.len(),
{
    if pairs.len() == 0 {
        None
    } else if pairs.last().0 == k {
        Some(pairs.last().1)
    } else {
        last_value(pairs.drop_last(), k)
    }
}

/// Filling a map from a list of pairs (header lines, URL parameters), a
/// key holds the value of its last pair.
pub proof fn law_last_value_wins(pairs: Seq<(Seq<char>, Seq<char>)>, k: Seq<char>)
    ensures
        lookup(insert_all(seq![], pairs), k) == last_value(pairs, k),
    decreases pairs.len(),
{
    if pairs.len() > 0 {
        law_last_value_wins(pairs.drop_last(), k);
        lemma_insert_all_distinct(seq![], pairs.drop_last());
        lemma_insert_entry_distinct(
            insert_all(seq![], pairs.drop_last()),
            pairs.last().0,
            pairs.last().1,
        );
    }
}

/// Reading an `RW` whole after appending `x` gives the unread bytes followed
/// by `x`.
pub proof fn law_read_after_write(d: Seq<u8>, pos: nat, x: Seq<u8>)
    requires
        pos <= d.len(),
    ensures
        ({
            let all = d + x;
            let n = read_len(all, pos, (d.len() - pos + x.len()) as nat);
            &&& n == d.len() - pos + x.len()
            &&& all.subrange(pos as int, (pos + n) as int) == d.subrange(pos as int, d.len() as int) + x
        }),
{
    let all = d + x;
    assert(all.subrange(pos as int, all.len() as int) =~= d.subrange(pos as int, d.len() as int)
        + x);
}

/// The chunks that successive reads of an `RW` holding `data`, from read
/// position `pos`, with a buffer of `w` bytes, hand out before the first read
/// that hands out nothing.
pub open spec fn read_chunks(data: Seq<u8>, pos: nat, w: nat) -> Seq<Seq<u8>>
    decreases data.len() - pos,
{
    if pos >= data.len() || w == 0 {
        seq![]
    } else {
        let n = read_len(data, pos, w);
        seq![data.subrange(pos as int, (pos + n) as int)] + read_chunks(data, pos + n, w)
    }
}

/// The chunks of `cs`, one after the other.
pub open spec fn concat_chunks(cs: Seq<Seq<u8>>) -> Seq<u8>
    decreases cs.len(),
{
    if cs.len() == 0 {
        seq![]
    } else {
        cs[0] + concat_chunks(cs.drop_first())
    }
}

proof fn lemma_read_chunks_from(data: Seq<u8>, pos: nat, w: nat)
    requires
        w > 0,
        pos <= data.len(),
    ensures
        concat_chunks(read_chunks(data, pos, w)) == data.subrange(pos as int, data.len() as int),
        forall|i: int|
            0 <= i < read_chunks(data, pos, w).len() ==> 0 < (#[trigger] read_chunks(
                data,
                pos,
                w,
            )[i]).len() <= w,
    decreases data.len() - pos,
{
    let cs = read_chunks(data, pos, w);
    if pos >= data.len() {
        assert(data.subrange(pos as int, data.len() as int) =~= Seq::<u8>::empty());
    } else {
        let n = read_len(data, pos, w);
        lemma_read_chunks_from(data, pos + n, w);
        let rest = read_chunks(data, pos + n, w);
        assert(cs.drop_first() =~= rest);
        assert(data.subrange(pos as int, data.len() as int) =~= data.subrange(
            pos as int,
            (pos + n) as int,
        ) + data.subrange((pos + n) as int, data.len() as int));
        assert forall|i: int| 0 <= i < cs.len() implies 0 < (#[trigger] cs[i]).len() <= w by {
            if i > 0 {
                assert(cs[i] == rest[i - 1]);
            }
        }
    }
}

/// Reading an `RW` from the start with a non-empty buffer until a read hands
/// out nothing gives back exactly the bytes it holds, in order: every read
/// before the last hands out between one byte and a buffer's worth, and the
/// read at the end hands out nothing.
pub proof fn law_read_until_empty(data: Seq<u8>, w: nat)
    requires
        w > 0,
    ensures
        concat_chunks(read_chunks(data, 0, w)) == data,
        forall|i: int|
            0 <= i < read_chunks(data, 0, w).len() ==> 0 < (#[trigger] read_chunks(data, 0, w)[i]).len()
                <= w,
        read_len(data, data.len(), w) == 0,
{
    lemma_read_chunks_from(data, 0, w);
    assert(data.subrange(0, data.len() as int) =~= data);
}

/// `pat` occurs somewhere in `s`.
pub open spec fn contains_pat(s: Seq<char>, pat: Seq<char>) -> bool {
    exists|i: int| matches_at(s, pat, i)
}

/// `s` is `a`, then `pat`, then `b`, with no `pat` inside `a`: `a` and `b`
/// are what lies before and after the first `pat` in `s`.
pub open spec fn splits_at_first(s: Seq<char>, pat: Seq<char>, a: Seq<char>, b: Seq<char>) -> bool {
    &&& a + pat + b == s
    &&& !contains_pat(a, pat)
}

/// Splitting at a non-empty pattern fails exactly when the pattern does not
/// occur; otherwise the halves are what lies before and after its first
/// occurrence.
pub proof fn law_split_once(s: Seq<char>, pat: Seq<char>)
    requires
        pat.len() > 0,
    ensures
        split_once(s, pat) is None <==> !contains_pat(s, pat),
        split_once(s, pat) matches Some(p) ==> splits_at_first(s, pat, p.0, p.1),
{
    lemma_find_from_bounds(s, pat, 0);
    let j = find_from(s, pat, 0);
    if j < 0 {
        assert forall|k: int| !matches_at(s, pat, k) by {
            if k >= 0 {
                assert(!matches_at(s, pat, k));
            }
        }
    } else {
        let a = s.take(j);
        let b = s.skip(j + pat.len());
        assert(matches_at(s, pat, j));
        assert(s.subrange(j, j + pat.len()) == pat);
        assert(a + pat + b =~= s) by {
            assert forall|i: int| 0 <= i < s.len() implies (a + pat + b)[i] == s[i] by {
                if j <= i < j + pat.len() {
                    assert(pat[i - j] == s.subrange(j, j + pat.len())[i - j]);
                }
            }
        }
        assert forall|k: int| !matches_at(a, pat, k) by {
            if matches_at(a, pat, k) {
                assert(a.subrange(k, k + pat.len()) =~= s.subrange(k, k + pat.len()));
                assert(matches_at(s, pat, k));
            }
        }
    }
}

/// The body of a request is all the text after its first blank line (the
/// first `\r\n\r\n`), and the head all the text before it; without a blank
/// line the whole text is head and the body is empty.
pub proof fn law_request_body(t: Seq<char>)
    ensures
        contains_pat(t, "\r\n\r\n"@) ==> splits_at_first(
            t,
            "\r\n\r\n"@,
            head_and_body(t).0,
            head_and_body(t).1,
        ),
        !contains_pat(t, "\r\n\r\n"@) ==> head_and_body(t) == (t, Seq::<char>::empty()),
        request_outcome(t) matches Ok(m) ==> (m.body matches Some(b) ==> splits_at_first(
            t,
            "\r\n\r\n"@,
            head_and_body(t).0,
            b,
        ) && b.len() > 0),
        request_outcome(t) matches Ok(m) ==> (m.body is None ==> head_and_body(t).1.len() == 0),
{
    reveal_strlit("\r\n\r\n");
    law_split_once(t, "\r\n\r\n"@);
    let (h, b) = head_and_body(t);
    if let Ok(m) = request_outcome(t) {
        assert(m.body == if b.len() == 0 {
            None
        } else {
            Some(b)
        });
        if b.len() > 0 {
            assert(contains_pat(t, "\r\n\r\n"@));
        }
    }
}

/// The URL parameter pairs of `&`-separated pieces: there are none (`None`)
/// exactly when some piece has no `=`; otherwise there is one pair per piece,
/// in order, split at the piece's first `=`.
pub proof fn law_param_pairs(pieces: Seq<Seq<char>>)
    ensures
        param_pairs(pieces) is None <==> exists|i: int|
            0 <= i < pieces.len() && !contains_pat(#[trigger] pieces[i], "="@),
        param_pairs(pieces) matches Some(p) ==> {
            &&& p.len() == pieces.len()
            &&& forall|i: int|
                0 <= i < pieces.len() ==> splits_at_first(#[trigger] pieces[i], "="@, p[i].0, p[i].1)
        },
    decreases pieces.len(),
{
    reveal_strlit("=");
    if pieces.len() > 0 {
        let init = pieces.drop_last();
        let last = pieces.last();
        law_param_pairs(init);
        law_split_once(last, "="@);
        match param_pairs(init) {
            None => {
                let i = choose|i: int| 0 <= i < init.len() && !contains_pat(#[trigger] init[i], "="@);
                assert(pieces[i] == init[i]);
            },
            Some(p0) => {
                if split_once(last, "="@) is None {
                    assert(!contains_pat(pieces[pieces.len() - 1], "="@));
                } else {
                    let kv = split_once(last, "="@)->0;
                    let p = p0.push(kv);
                    assert forall|i: int| 0 <= i < pieces.len() implies splits_at_first(
                        #[trigger] pieces[i],
                        "="@,
                        p[i].0,
                        p[i].1,
                    ) by {
                        if i < init.len() {
                            assert(pieces[i] == init[i]);
                        }
                    }
                    assert forall|i: int| 0 <= i < pieces.len() implies contains_pat(
                        #[trigger] pieces[i],
                        "="@,
                    ) by {
                        if i < init.len() {
                            assert(pieces[i] == init[i]);
                        }
                    }
                }
            },
        }
    }
}

/// A query string gives no parameters when empty; otherwise it fails
/// exactly when one of its `&`-separated pieces has no `=`, and else holds
/// the pairs of its pieces, each split at its first `=`.
pub proof fn law_url_params(s: Seq<char>)
    ensures
        s.len() == 0 ==> url_params_spec(s) == Some(Seq::<(Seq<char>, Seq<char>)>::empty()),
        s.len() > 0 ==> (url_params_spec(s) is None <==> exists|i: int|
            0 <= i < split(s, "&"@).len() && !contains_pat(#[trigger] split(s, "&"@)[i], "="@)),
        s.len() > 0 && url_params_spec(s) is Some ==> url_params_spec(s) == Some(
            insert_all(seq![], param_pairs(split(s, "&"@))->0),
        ),
{
    law_param_pairs(split(s, "&"@));
}

/// The lines of a header block that give a field: not blank, and holding
/// `: `.
pub open spec fn field_lines(lines: Seq<Seq<char>>) -> Seq<Seq<char>> {
    lines.filter(|l: Seq<char>| !all_white_space(l) && contains_pat(l, ": "@))
}

/// Each field line gives one pair, in order, split at its first `: `: the
/// value is all of the line after it.
pub proof fn law_header_pairs(lines: Seq<Seq<char>>)
    ensures
        header_pairs(lines).len() == field_lines(lines).len(),
        forall|i: int|
            0 <= i < header_pairs(lines).len() ==> splits_at_first(
                #[trigger] field_lines(lines)[i],
                ": "@,
                header_pairs(lines)[i].0,
                header_pairs(lines)[i].1,
            ),
    decreases lines.len(),
{
    reveal_strlit(": ");
    if lines.len() > 0 {
        let init = lines.drop_last();
        let last = lines.last();
        law_header_pairs(init);
        law_split_once(last, ": "@);
        reveal_with_fuel(Seq::<_>::filter, 1);
        assert(field_lines(lines) == if !all_white_space(last) && contains_pat(last, ": "@) {
            field_lines(init).push(last)
        } else {
            field_lines(init)
        });
        assert forall|i: int| 0 <= i < header_pairs(lines).len() implies splits_at_first(
            #[trigger] field_lines(lines)[i],
            ": "@,
            header_pairs(lines)[i].0,
            header_pairs(lines)[i].1,
        ) by {
            if i < header_pairs(init).len() {
                assert(field_lines(lines)[i] == field_lines(init)[i]);
                assert(header_pairs(lines)[i] == header_pairs(init)[i]);
            }
        }
    }
}

/// The bytes a body value stands for are its own bytes: a byte vector,
/// slice or array its elements, a string its UTF-8 encoding.
pub proof fn law_body_bytes<const N: usize>(
    v: Vec<u8>,
    sl: &[u8],
    arr: [u8; N],
    s: &str,
    st: String,
)
    ensures
        v.body_bytes() == v@,
        (&v).body_bytes() == v@,
        sl.body_bytes() == sl@,
        arr.body_bytes() == arr@,
        (&arr).body_bytes() == arr@,
        s.body_bytes() == encode_utf8(s@),
        st.body_bytes() == encode_utf8(st@),
        (&st).body_bytes() == encode_utf8(st@),
{
}

/// Compression encodes the whole body: the body sent with a coding is the
/// encoder's output for all of the body when that output is not empty, and
/// the body itself otherwise.
pub proof fn law_compression_whole_body(body: Seq<u8>)
    ensures
        compressed_body(CompressionMethod::Brotli, body) == match brotli_result(body) {
            Some(v) => if v.len() > 0 {
                v
            } else {
                body
            },
            None => body,
        },
        compressed_body(CompressionMethod::Gzip, body) == match gzip_result(body) {
            Some(v) => if v.len() > 0 {
                v
            } else {
                body
            },
            None => body,
        },
{
}

} // verus!
