use vstd::prelude::*;
use vstd::string::{StrSliceExecFns, StringExecFns};
use vstd::utf8::{encode_utf8, valid_utf8};
use crate::router::{router_at, router_map, router_wf};
use crate::routes::{ep_view, Endpoint, EpEntry};

verus! {

/// Carriage return or line feed, the characters ending a request line.
pub open spec fn is_line_break(b: u8) -> bool {
    b == 13 || b == 10
}

/// Index of the first line break at or after `i`, or `limit` if there is none
/// before it.
pub open spec fn break_from(b: Seq<u8>, i: int, limit: int) -> int
    decreases limit - i,
    when 0 <= i <= limit <= b.len()
{
    if i >= limit {
        limit
    } else if is_line_break(b[i]) {
        i
    } else {
        break_from(b, i + 1, limit)
    }
}

/// Index of the first space at or after `i`, or `limit` if there is none
/// before it.
pub open spec fn space_from(b: Seq<u8>, i: int, limit: int) -> int
    decreases limit - i,
    when 0 <= i <= limit <= b.len()
{
    if i >= limit {
        limit
    } else if b[i] == 32 {
        i
    } else {
        space_from(b, i + 1, limit)
    }
}

/// The request path named by a chunk of request bytes: the second
/// space-delimited token of the first line, with one leading `/` stripped.
/// A chunk without such a token, or with one that is not UTF-8, names the
/// empty path.
pub open spec fn extracted_path(b: Seq<u8>) -> Seq<u8> {
    let le = break_from(b, 0, b.len() as int);
    let s1 = space_from(b, 0, le);
    if s1 == le {
        Seq::empty()
    } else {
        let s2 = space_from(b, s1 + 1, le);
        let uri = b.subrange(s1 + 1, s2);
        if !valid_utf8(uri) {
            Seq::empty()
        } else if uri.len() > 0 && uri[0] == 47 {
            uri.skip(1)
        } else {
            uri
        }
    }
}

/// Relies on std::str::from_utf8, which accepts exactly the valid UTF-8
/// byte sequences.
#[verifier::external_body]
fn is_utf8(b: &[u8]) -> (r: bool)
    ensures
        r == valid_utf8(b@),
{
    std::str::from_utf8(b).is_ok()
}

/// Pulls the request path out of a raw request chunk: the second
/// space-delimited token of the first line, without its leading `/`.
pub fn extract_path(body: &[u8]) -> (r: Vec<u8>)
    ensures
        r@ == extracted_path(body@),
{
    let n = body.len();
    let ghost bs = body@;

    let mut le: usize = 0;
    while le < n && body[le] != 13 && body[le] != 10
        invariant
            0 <= le <= n == bs.len(),
            body@ == bs,
            break_from(bs, 0, n as int) == break_from(bs, le as int, n as int),
        decreases n - le,
    {
        le = le + 1;
    }
    assert(le as int == break_from(bs, 0, n as int));

    let mut s1: usize = 0;
    while s1 < le && body[s1] != 32
        invariant
            0 <= s1 <= le <= n == bs.len(),
            body@ == bs,
            le as int == break_from(bs, 0, n as int),
            space_from(bs, 0, le as int) == space_from(bs, s1 as int, le as int),
        decreases le - s1,
    {
        s1 = s1 + 1;
    }
    assert(s1 as int == space_from(bs, 0, le as int));

    if s1 == le {
        return Vec::new();
    }

    let start = s1 + 1;
    let mut s2: usize = start;
    while s2 < le && body[s2] != 32
        invariant
            start <= s2 <= le <= n == bs.len(),
            body@ == bs,
            space_from(bs, start as int, le as int) == space_from(bs, s2 as int, le as int),
        decreases le - s2,
    {
        s2 = s2 + 1;
    }
    assert(s2 as int == space_from(bs, start as int, le as int));

    let mut uri: Vec<u8> = Vec::new();
    let mut i: usize = start;
    while i < s2
        invariant
            start <= i <= s2 <= n == bs.len(),
            body@ == bs,
            uri@ == bs.subrange(start as int, i as int),
        decreases s2 - i,
    {
        uri.push(body[i]);
        i = i + 1;
    }
    assert(uri@ =~= bs.subrange(start as int, s2 as int));

    if !is_utf8(uri.as_slice()) {
        return Vec::new();
    }

    if uri.len() > 0 && uri[0] == 47 {
        let _leading = uri.remove(0);
        assert(uri@ =~= bs.subrange(start as int, s2 as int).skip(1));
        uri
    } else {
        uri
    }
}

/// True when `pat` occurs in `data` starting at index `i`.
pub open spec fn matches_at(data: Seq<u8>, pat: Seq<u8>, i: int) -> bool {
    &&& 0 <= i
    &&& i + pat.len() <= data.len()
    &&& data.subrange(i, i + pat.len()) == pat
}

/// Index of the first occurrence of `pat` in `data` at or after `i`.
pub open spec fn find_from(data: Seq<u8>, pat: Seq<u8>, i: int) -> Option<int>
    decreases data.len() - i,
    when 0 <= i && pat.len() > 0
{
    if i + pat.len() > data.len() {
        None
    } else if matches_at(data, pat, i) {
        Some(i)
    } else {
        find_from(data, pat, i + 1)
    }
}

/// `data` with the first occurrence of `pat` replaced by `rep`, or `data`
/// itself when `pat` does not occur.
pub open spec fn replace_first(data: Seq<u8>, pat: Seq<u8>, rep: Seq<u8>) -> Seq<u8> {
    match find_from(data, pat, 0) {
        None => data,
        Some(i) => data.take(i) + rep + data.skip(i + pat.len()),
    }
}

/// True when `pat` occurs in `data` starting at `i`; compares byte by byte.
fn is_match_at(data: &[u8], pat: &Vec<u8>, i: usize) -> (r: bool)
    requires
        i + pat@.len() <= data@.len(),
    ensures
        r == matches_at(data@, pat@, i as int),
{
    let m = pat.len();
    let dn = data.len();
    let mut k: usize = 0;
    while k < m
        invariant
            0 <= k <= m == pat@.len(),
            i + m <= dn == data@.len(),
            forall|l: int| 0 <= l < k ==> data@[i + l] == pat@[l],
        decreases m - k,
    {
        if data[i + k] != pat[k] {
            assert(data@.subrange(i as int, i + m) != pat@) by {
                assert(data@.subrange(i as int, i + m)[k as int] != pat@[k as int]);
            }
            return false;
        }
        k = k + 1;
    }
    assert(data@.subrange(i as int, i + m) =~= pat@);
    true
}

/// Replaces the first occurrence of `search` in `data` with `replacement`;
/// bytes pass through unmodified when `search` does not occur.
pub fn rewrite_path(data: &[u8], search: Vec<u8>, replacement: Vec<u8>) -> (r: Vec<u8>)
    requires
        search@.len() > 0,
    ensures
        r@ == replace_first(data@, search@, replacement@),
{
    let n = data.len();
    let m = search.len();
    let ghost ds = data@;

    let mut pos: usize = 0;
    let mut found: bool = false;
    if m <= n {
        let limit = n - m;
        while pos <= limit && !found
            invariant
                0 <= pos <= limit + 1,
                limit == n - m,
                m <= n == ds.len(),
                m == search@.len(),
                data@ == ds,
                m >= 1,
                !found ==> find_from(ds, search@, 0) == find_from(ds, search@, pos as int),
                found ==> find_from(ds, search@, 0) == Some(pos as int)
                    && matches_at(ds, search@, pos as int),
            decreases limit - pos + (if found { 0int } else { 1int }),
        {
            if is_match_at(data, &search, pos) {
                found = true;
            } else {
                pos = pos + 1;
            }
        }
    }

    if !found {
        assert(find_from(ds, search@, 0) is None);
        return vstd::slice::slice_to_vec(data);
    }

    let ghost i0 = pos as int;
    let mut out: Vec<u8> = Vec::new();
    let mut j: usize = 0;
    while j < pos
        invariant
            0 <= j <= pos <= n == ds.len(),
            data@ == ds,
            out@ == ds.take(j as int),
        decreases pos - j,
    {
        out.push(data[j]);
        j = j + 1;
    }

    let mut j2: usize = 0;
    let rl = replacement.len();
    while j2 < rl
        invariant
            0 <= j2 <= rl == replacement@.len(),
            out@ == ds.take(i0) + replacement@.take(j2 as int),
        decreases rl - j2,
    {
        out.push(replacement[j2]);
        j2 = j2 + 1;
    }
    assert(replacement@.take(rl as int) =~= replacement@);

    let mut j3: usize = pos + m;
    while j3 < n
        invariant
            0 <= i0,
            i0 + m <= j3 <= n == ds.len(),
            n == data@.len(),
            m == search@.len(),
            data@ == ds,
            out@ == ds.take(i0) + replacement@ + ds.subrange(i0 + m, j3 as int),
        decreases n - j3,
    {
        assert(0 <= i0 && i0 + m <= j3 < n);
        out.push(data[j3]);
        assert(ds.subrange(i0 + m, j3 + 1 as int) =~= ds.subrange(i0 + m, j3 as int)
            + seq![ds[j3 as int]]);
        j3 = j3 + 1;
    }
    assert(ds.subrange(i0 + m, n as int) =~= ds.skip(i0 + m));
    assert(out@ =~= ds.take(i0) + replacement@ + ds.skip(i0 + m));
    out
}

/// Index of the first `/` at or after `i`, or the length if there is none.
pub open spec fn slash_from(b: Seq<u8>, i: int) -> int
    decreases b.len() - i,
    when 0 <= i <= b.len()
{
    if i >= b.len() {
        b.len() as int
    } else if b[i] == 47 {
        i
    } else {
        slash_from(b, i + 1)
    }
}

/// `p` without its trailing slashes.
pub open spec fn trim_trailing_slashes(p: Seq<u8>) -> Seq<u8>
    decreases p.len(),
{
    if p.len() > 0 && p.last() == 47 {
        trim_trailing_slashes(p.drop_last())
    } else {
        p
    }
}

/// The `/`-separated segments of `p` from index `i` on; splitting never
/// yields an empty list.
pub open spec fn split_from(p: Seq<u8>, i: int) -> Seq<Seq<u8>>
    decreases p.len() - i,
    when 0 <= i <= p.len()
{
    let j = slash_from(p, i);
    if j < i || j >= p.len() {
        seq![p.subrange(i, p.len() as int)]
    } else {
        seq![p.subrange(i, j)] + split_from(p, j + 1)
    }
}

/// The `/`-separated segments of `p`.
pub open spec fn split_slash(p: Seq<u8>) -> Seq<Seq<u8>> {
    split_from(p, 0)
}

/// The segments joined back with `/`.
pub open spec fn join_slash(parts: Seq<Seq<u8>>) -> Seq<u8>
    decreases parts.len(),
{
    if parts.len() == 0 {
        Seq::empty()
    } else if parts.len() == 1 {
        parts[0]
    } else {
        join_slash(parts.drop_last()) + seq![47u8] + parts.last()
    }
}

/// The route candidate a list of segments names: `/` followed by the
/// segments joined with `/`.
pub open spec fn candidate_of(parts: Seq<Seq<u8>>) -> Seq<u8> {
    seq![47u8] + join_slash(parts)
}

/// The registered route matching the longest prefix of `parts`: the first
/// candidate found while dropping trailing segments, or `None`.
pub open spec fn match_key_in(m: Map<Seq<u8>, EpEntry>, parts: Seq<Seq<u8>>) -> Option<Seq<u8>>
    decreases parts.len(),
{
    if parts.len() == 0 {
        None
    } else if m.dom().contains(candidate_of(parts)) {
        Some(candidate_of(parts))
    } else {
        match_key_in(m, parts.drop_last())
    }
}

/// The registered route that the longest-prefix match of `path` hits.
pub open spec fn matched_key_spec(m: Map<Seq<u8>, EpEntry>, path: Seq<u8>) -> Option<Seq<u8>> {
    match_key_in(m, split_slash(trim_trailing_slashes(path)))
}

/// The byte sequences of a list of byte vectors.
pub open spec fn seg_views(s: Seq<Vec<u8>>) -> Seq<Seq<u8>> {
    Seq::new(s.len(), |i: int| s[i]@)
}

/// Finds the most specific endpoint registered for `path`: tries the full
/// path, then drops one `/`-delimited segment at a time.
pub fn match_prefix<'a>(router: &'a matchit::Router<Endpoint>, path: &[u8]) -> (res: Option<
    &'a Endpoint,
>)
    requires
        router_wf(router_map(*router)),
    ensures
        match res {
            Some(e) => {
                &&& matched_key_spec(router_map(*router), path@) matches Some(k)
                    && router_map(*router).dom().contains(k)
                    && ep_view(*e) == router_map(*router)[k]
                    && vstd::utf8::encode_utf8(e.path@) == k
            },
            None => matched_key_spec(router_map(*router), path@) is None,
        },
{
    let ghost m = router_map(*router);
    let n = path.len();

    // Length of the path with trailing slashes trimmed.
    let mut tl: usize = n;
    assert(path@.take(n as int) =~= path@);
    while tl > 0 && path[tl - 1] == 47
        invariant
            0 <= tl <= n == path@.len(),
            trim_trailing_slashes(path@) == trim_trailing_slashes(path@.take(tl as int)),
        decreases tl,
    {
        assert(path@.take(tl as int).drop_last() =~= path@.take(tl - 1));
        tl = tl - 1;
    }
    assert(path@.take(tl as int) == trim_trailing_slashes(path@)) by {
        assert(trim_trailing_slashes(path@.take(tl as int)) == path@.take(tl as int));
    }
    let ghost t = path@.take(tl as int);

    // Split the trimmed path into segments.
    let mut parts: Vec<Vec<u8>> = Vec::new();
    let mut cur: Vec<u8> = Vec::new();
    let mut s: usize = 0;
    let mut i: usize = 0;
    while i < tl
        invariant
            0 <= s <= i <= tl <= n == path@.len(),
            t == path@.take(tl as int),
            cur@ == t.subrange(s as int, i as int),
            slash_from(t, s as int) == slash_from(t, i as int),
            split_from(t, 0) == seg_views(parts@) + split_from(t, s as int),
        decreases tl - i,
    {
        if path[i] == 47 {
            proof {
                assert(t[i as int] == 47);
                assert(slash_from(t, i as int) == i as int);
                assert(split_from(t, s as int) =~= seq![t.subrange(s as int, i as int)]
                    + split_from(t, i + 1));
            }
            let ghost dv0 = parts@;
            parts.push(cur);
            cur = Vec::new();
            proof {
                assert(seg_views(parts@) =~= seg_views(dv0).push(t.subrange(s as int, i as int)));
                assert(seg_views(dv0).push(t.subrange(s as int, i as int)) + split_from(t, i + 1)
                    =~= seg_views(dv0) + (seq![t.subrange(s as int, i as int)] + split_from(
                    t,
                    i + 1,
                )));
                assert(cur@ =~= t.subrange(i + 1, i + 1));
            }
            s = i + 1;
        } else {
            assert(t[i as int] != 47);
            assert(cur@.push(t[i as int]) =~= t.subrange(s as int, i + 1 as int));
            cur.push(path[i]);
        }
        i = i + 1;
    }
    assert(slash_from(t, i as int) == t.len() as int);
    assert(split_from(t, s as int) =~= seq![t.subrange(s as int, t.len() as int)]);
    assert(cur@ =~= t.subrange(s as int, t.len() as int));
    let ghost dv1 = parts@;
    parts.push(cur);
    proof {
        assert(seg_views(parts@) =~= seg_views(dv1).push(t.subrange(s as int, t.len() as int)));
        assert(seg_views(dv1).push(t.subrange(s as int, t.len() as int)) =~= seg_views(dv1)
            + seq![t.subrange(s as int, t.len() as int)]);
        assert(seg_views(parts@) =~= split_slash(t));
    }

    // Try candidates, longest first.
    while parts.len() > 0
        invariant
            router_wf(m),
            m == router_map(*router),
            match_key_in(m, seg_views(parts@)) == matched_key_spec(m, path@),
        decreases parts.len(),
    {
        let mut cand: Vec<u8> = Vec::new();
        cand.push(47);
        let pn = parts.len();
        let mut k: usize = 0;
        while k < pn
            invariant
                0 < pn == parts@.len(),
                0 <= k <= pn,
                cand@ == seq![47u8] + join_slash(seg_views(parts@).take(k as int)),
            decreases pn - k,
        {
            if k > 0 {
                cand.push(47);
            }
            let seg: &Vec<u8> = &parts[k];
            let sn = seg.len();
            let mut j: usize = 0;
            let ghost cand0 = cand@;
            while j < sn
                invariant
                    0 <= j <= sn == seg@.len(),
                    cand@ == cand0 + seg@.take(j as int),
                decreases sn - j,
            {
                assert(seg@.take(j as int).push(seg@[j as int]) =~= seg@.take(j + 1 as int));
                cand.push(seg[j]);
                j = j + 1;
            }
            assert(seg@.take(sn as int) =~= seg@);
            proof {
                let dv = seg_views(parts@);
                assert(dv[k as int] == seg@);
                if k == 0 {
                    assert(dv.take(1) =~= seq![dv[0]]);
                    assert(join_slash(dv.take(1)) == dv[0]);
                    assert(cand@ =~= seq![47u8] + join_slash(dv.take(1)));
                } else {
                    assert(dv.take(k + 1 as int).drop_last() =~= dv.take(k as int));
                    assert(dv.take(k + 1 as int).last() == dv[k as int]);
                    assert(join_slash(dv.take(k + 1 as int)) == join_slash(dv.take(k as int))
                        + seq![47u8] + dv[k as int]);
                    assert(cand@ =~= seq![47u8] + join_slash(dv.take(k + 1 as int)));
                }
            }
            k = k + 1;
        }
        assert(seg_views(parts@).take(pn as int) =~= seg_views(parts@));
        assert(cand@ == candidate_of(seg_views(parts@)));

        match router_at(router, cand.as_slice()) {
            Some(e) => {
                return Some(e);
            },
            None => {
                let ghost before = parts@;
                let _ = parts.pop();
                assert(seg_views(parts@) =~= seg_views(before).drop_last());
            },
        }
    }
    None
}

/// The decimal digit character for `d`.
pub open spec fn digit_char(d: nat) -> char {
    if d == 0 {
        '0'
    } else if d == 1 {
        '1'
    } else if d == 2 {
        '2'
    } else if d == 3 {
        '3'
    } else if d == 4 {
        '4'
    } else if d == 5 {
        '5'
    } else if d == 6 {
        '6'
    } else if d == 7 {
        '7'
    } else if d == 8 {
        '8'
    } else {
        '9'
    }
}

/// The decimal digits of `n`, most significant first.
pub open spec fn dec_of(n: nat) -> Seq<char>
    decreases n,
{
    if n < 10 {
        seq![digit_char(n)]
    } else {
        dec_of(n / 10) + seq![digit_char(n % 10)]
    }
}

/// The one-character string for a decimal digit.
fn digit_str(d: u8) -> (r: &'static str)
    requires
        d < 10,
    ensures
        r@ == seq![digit_char(d as nat)],
{
    proof {
        reveal_strlit("0");
        reveal_strlit("1");
        reveal_strlit("2");
        reveal_strlit("3");
        reveal_strlit("4");
        reveal_strlit("5");
        reveal_strlit("6");
        reveal_strlit("7");
        reveal_strlit("8");
        reveal_strlit("9");
    }
    match d {
        0 => {
            assert("0"@ =~= seq![digit_char(0)]);
            "0"
        },
        1 => {
            assert("1"@ =~= seq![digit_char(1)]);
            "1"
        },
        2 => {
            assert("2"@ =~= seq![digit_char(2)]);
            "2"
        },
        3 => {
            assert("3"@ =~= seq![digit_char(3)]);
            "3"
        },
        4 => {
            assert("4"@ =~= seq![digit_char(4)]);
            "4"
        },
        5 => {
            assert("5"@ =~= seq![digit_char(5)]);
            "5"
        },
        6 => {
            assert("6"@ =~= seq![digit_char(6)]);
            "6"
        },
        7 => {
            assert("7"@ =~= seq![digit_char(7)]);
            "7"
        },
        8 => {
            assert("8"@ =~= seq![digit_char(8)]);
            "8"
        },
        _ => {
            assert("9"@ =~= seq![digit_char(d as nat)]);
            "9"
        },
    }
}

/// Writes `n` in decimal.
pub fn dec_string(n: usize) -> (r: String)
    ensures
        r@ == dec_of(n as nat),
    decreases n,
{
    if n < 10 {
        String::from_str(digit_str(n as u8))
    } else {
        let mut r = dec_string(n / 10);
        r.append(digit_str((n % 10) as u8));
        r
    }
}

/// The JSON string literal (quoted and escaped) denoting a text.
pub uninterp spec fn json_quote_of(s: Seq<char>) -> Seq<char>;

/// True when no character of `s` needs a JSON escape: the escapes are
/// exactly `"`, `\` and the control characters below space.
pub open spec fn json_escape_free(s: Seq<char>) -> bool {
    forall|i: int| 0 <= i < s.len() ==> (s[i] as u32) >= 32 && s[i] != '"' && s[i] != '\\'
}

/// A JSON string literal that needs no escapes: the text between quotes.
pub open spec fn json_quote_plain(s: Seq<char>) -> Seq<char> {
    "\""@ + s + "\""@
}

/// Relies on serde_json::to_string on a string slice: the JSON string
/// literal denoting `msg`, a function of its characters alone; its escape
/// table touches only `"`, `\` and the control characters, so a text free
/// of them is simply quoted.
#[verifier::external_body]
fn json_quote(msg: &str) -> (r: String)
    ensures
        r@ == json_quote_of(msg@),
        json_escape_free(msg@) ==> r@ == json_quote_plain(msg@),
{
    serde_json::to_string(msg).unwrap_or_default()
}

/// The body of a 404 response: a JSON object whose `detail` field is the
/// (already quoted) message.
pub open spec fn http_404_body(q: Seq<char>) -> Seq<char> {
    "{\"detail\":"@ + q + "}"@
}

/// A full 404 response around an already-quoted message: status line,
/// JSON content type, the body's byte length, and `Connection: close`.
pub open spec fn http_404_chars(q: Seq<char>) -> Seq<char> {
    "HTTP/1.1 404 Not Found\r\nContent-Type: application/json\r\nContent-Length: "@ + dec_of(
        encode_utf8(http_404_body(q)).len() as usize as nat,
    ) + "\r\nConnection: close\r\n\r\n"@ + http_404_body(q)
}

/// The 404 response sent for an unmatched path, carrying `msg`.
pub open spec fn http_404_spec(msg: Seq<char>) -> Seq<char> {
    http_404_chars(json_quote_of(msg))
}

/// Builds the 404 response sent when no endpoint matches: a literal
/// `HTTP/1.1 404 Not Found` head and a JSON body carrying `message`.
pub fn http_404_response(message: &str) -> (r: String)
    ensures
        r@ == http_404_spec(message@),
        json_escape_free(message@) ==> r@ == http_404_chars(json_quote_plain(message@)),
{
    let quoted = json_quote(message);
    let mut body = String::from_str("{\"detail\":");
    body.append(quoted.as_str());
    body.append("}");
    let blen: usize = body.as_str().len();
    let mut r = String::from_str(
        "HTTP/1.1 404 Not Found\r\nContent-Type: application/json\r\nContent-Length: ",
    );
    let lenstr = dec_string(blen);
    r.append(lenstr.as_str());
    r.append("\r\nConnection: close\r\n\r\n");
    r.append(body.as_str());
    r
}

} // verus!
