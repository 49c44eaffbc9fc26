//! The request descriptor and its builder: normalizes proxy-supplied
//! metadata (pseudo-headers, forwarded-for chain, cookies, query string)
//! into an immutable record. Stages after the builder mutate only the tag
//! set and the decision.

use vstd::prelude::*;
use vstd::string::StrSliceExecFns;
use crate::requestfields::{spec_add_all, RequestField};

verus! {

/// Relies on `String::push`: appends exactly one character.
#[verifier::external_body]
pub(crate) fn push_char(s: &mut String, c: char)
    ensures
        final(s)@ == old(s)@.push(c),
{
    s.push(c)
}

/// The fields of `s` split on `sep`: always at least one field, empty
/// fields kept.
pub open spec fn spec_split(s: Seq<char>, sep: char) -> Seq<Seq<char>>
    decreases s.len(),
{
    if s.len() == 0 {
        seq![Seq::<char>::empty()]
    } else if s[0] == sep {
        seq![Seq::<char>::empty()] + spec_split(s.drop_first(), sep)
    } else {
        let r = spec_split(s.drop_first(), sep);
        seq![seq![s[0]] + r[0]] + r.drop_first()
    }
}

proof fn lemma_split_len(s: Seq<char>, sep: char)
    ensures
        spec_split(s, sep).len() >= 1,
    decreases s.len(),
{
    if s.len() > 0 {
        lemma_split_len(s.drop_first(), sep);
    }
}

/// Split a string on a separator character, empty fields kept.
pub fn split_on(s: &str, sep: char) -> (r: Vec<String>)
    ensures
        r@.map_values(|x: String| x@) == spec_split(s@, sep),
{
    let n = s.unicode_len();
    let mut out: Vec<String> = Vec::new();
    let mut cur = String::new();
    proof {
        lemma_split_len(s@, sep);
        assert(s@.subrange(0, n as int) =~= s@);
        assert(spec_split(s@, sep) =~= seq![spec_split(s@, sep)[0]] + spec_split(
            s@,
            sep,
        ).drop_first());
        assert(cur@ + spec_split(s@, sep)[0] =~= spec_split(s@, sep)[0]);
        assert(out@.map_values(|x: String| x@) + seq![cur@ + spec_split(s@, sep)[0]]
            + spec_split(s@, sep).drop_first() =~= spec_split(s@, sep));
    }
    let mut i: usize = 0;
    while i < n
        invariant
            n == s@.len(),
            i <= n,
            ({
                let rest = s@.subrange(i as int, n as int);
                spec_split(s@, sep) == out@.map_values(|x: String| x@) + seq![
                    cur@ + spec_split(rest, sep)[0],
                ] + spec_split(rest, sep).drop_first()
            }),
        decreases n - i,
    {
        let ghost rest = s@.subrange(i as int, n as int);
        let ghost rest2 = s@.subrange(i as int + 1, n as int);
        proof {
            assert(rest[0] == s@[i as int]);
            assert(rest.drop_first() =~= rest2);
            lemma_split_len(rest2, sep);
        }
        let c = s.get_char(i);
        if c == sep {
            out.push(cur);
            cur = String::new();
            proof {
                assert(spec_split(rest, sep) =~= seq![Seq::<char>::empty()] + spec_split(
                    rest2,
                    sep,
                ));
                assert(spec_split(rest2, sep) =~= seq![spec_split(rest2, sep)[0]] + spec_split(
                    rest2,
                    sep,
                ).drop_first());
                assert(out@.map_values(|x: String| x@) + seq![
                    cur@ + spec_split(rest2, sep)[0],
                ] + spec_split(rest2, sep).drop_first() =~= spec_split(s@, sep));
            }
        } else {
            let ghost cur0 = cur@;
            push_char(&mut cur, c);
            proof {
                assert(spec_split(rest, sep) =~= seq![seq![rest[0]] + spec_split(rest2, sep)[0]]
                    + spec_split(rest2, sep).drop_first());
                assert(spec_split(rest, sep)[0] == seq![rest[0]] + spec_split(rest2, sep)[0]);
                assert(spec_split(rest, sep).drop_first() =~= spec_split(
                    rest2,
                    sep,
                ).drop_first());
                assert(cur@ + spec_split(rest2, sep)[0] =~= cur0 + (seq![rest[0]] + spec_split(
                    rest2,
                    sep,
                )[0]));
                assert(out@.map_values(|x: String| x@) + seq![
                    cur@ + spec_split(rest2, sep)[0],
                ] + spec_split(rest2, sep).drop_first() =~= spec_split(s@, sep));
            }
        }
        i += 1;
    }
    proof {
        let rest = s@.subrange(n as int, n as int);
        assert(rest =~= Seq::<char>::empty());
        assert(spec_split(rest, sep) =~= seq![Seq::<char>::empty()]);
        assert(cur@ + Seq::<char>::empty() =~= cur@);
        assert(out@.map_values(|x: String| x@).push(cur@) =~= spec_split(s@, sep));
    }
    out.push(cur);
    proof {
        assert(out@.map_values(|x: String| x@) =~= spec_split(s@, sep));
    }
    out
}

/// `s` with leading spaces removed.
pub open spec fn spec_trim_front(s: Seq<char>) -> Seq<char>
    decreases s.len(),
{
    if s.len() > 0 && s[0] == ' ' {
        spec_trim_front(s.drop_first())
    } else {
        s
    }
}

/// `s` with trailing spaces removed.
pub open spec fn spec_trim_back(s: Seq<char>) -> Seq<char>
    decreases s.len(),
{
    if s.len() > 0 && s.last() == ' ' {
        spec_trim_back(s.drop_last())
    } else {
        s
    }
}

/// `s` with leading and trailing spaces removed.
pub open spec fn spec_trim(s: Seq<char>) -> Seq<char> {
    spec_trim_back(spec_trim_front(s))
}

proof fn lemma_trim_front(s: Seq<char>, k: int)
    requires
        0 <= k <= s.len(),
        forall|j: int| 0 <= j < k ==> s[j] == ' ',
        k == s.len() || s[k] != ' ',
    ensures
        spec_trim_front(s) == s.subrange(k, s.len() as int),
    decreases k,
{
    if k == 0 {
        assert(s.subrange(0, s.len() as int) =~= s);
    } else {
        let rest = s.drop_first();
        assert(s[0] == ' ');
        assert forall|j: int| 0 <= j < k - 1 implies rest[j] == ' ' by {
            assert(rest[j] == s[j + 1]);
        }
        if k - 1 < rest.len() {
            assert(rest[k - 1] == s[k]);
        }
        lemma_trim_front(rest, k - 1);
        assert(rest.subrange(k - 1, rest.len() as int) =~= s.subrange(k, s.len() as int));
    }
}

proof fn lemma_trim_back(s: Seq<char>, e: int)
    requires
        0 <= e <= s.len(),
        forall|j: int| e <= j < s.len() ==> s[j] == ' ',
        e == 0 || s[e - 1] != ' ',
    ensures
        spec_trim_back(s) == s.subrange(0, e),
    decreases s.len() - e,
{
    if e == s.len() {
        if s.len() > 0 && s.last() == ' ' {
            assert(false);
        }
        assert(s.subrange(0, e) =~= s);
    } else {
        let rest = s.drop_last();
        assert(s.last() == ' ');
        assert forall|j: int| e <= j < rest.len() implies rest[j] == ' ' by {
            assert(rest[j] == s[j]);
        }
        if e > 0 {
            assert(rest[e - 1] == s[e - 1]);
        }
        lemma_trim_back(rest, e);
        assert(rest.subrange(0, e) =~= s.subrange(0, e));
    }
}

/// Strip leading and trailing spaces.
pub fn trim_spaces(s: &str) -> (r: String)
    ensures
        r@ == spec_trim(s@),
{
    let n = s.unicode_len();
    let mut start: usize = 0;
    while start < n && s.get_char(start) == ' '
        invariant
            n == s@.len(),
            start <= n,
            forall|j: int| 0 <= j < start ==> s@[j] == ' ',
        decreases n - start,
    {
        start += 1;
    }
    proof {
        lemma_trim_front(s@, start as int);
    }
    let ghost f = s@.subrange(start as int, n as int);
    let mut end: usize = n;
    while end > start && s.get_char(end - 1) == ' '
        invariant
            n == s@.len(),
            start <= end <= n,
            forall|j: int| end <= j < n ==> s@[j] == ' ',
        decreases end,
    {
        end -= 1;
    }
    proof {
        assert forall|j: int| end - start <= j < f.len() implies f[j] == ' ' by {
            assert(f[j] == s@[start + j]);
        }
        if end > start {
            assert(f[end - start - 1] == s@[end - 1]);
        }
        lemma_trim_back(f, end - start as int);
        assert(f.subrange(0, end - start as int) =~= s@.subrange(start as int, end as int));
    }
    let piece = s.substring_char(start, end);
    piece.to_owned()
}

/// The index of the first occurrence of `c` in `s`, if any.
pub open spec fn first_index_of(s: Seq<char>, c: char) -> Option<int>
    decreases s.len(),
{
    if s.len() == 0 {
        None
    } else if s[0] == c {
        Some(0int)
    } else {
        match first_index_of(s.drop_first(), c) {
            Some(k) => Some(k + 1),
            None => None,
        }
    }
}

proof fn lemma_first_index_found(s: Seq<char>, c: char, i: int)
    requires
        0 <= i < s.len(),
        s[i] == c,
        forall|j: int| 0 <= j < i ==> s[j] != c,
    ensures
        first_index_of(s, c) == Some(i),
    decreases i,
{
    if i > 0 {
        let rest = s.drop_first();
        assert(rest[i - 1] == s[i]);
        assert forall|j: int| 0 <= j < i - 1 implies rest[j] != c by {
            assert(rest[j] == s[j + 1]);
        }
        lemma_first_index_found(rest, c, i - 1);
    }
}

proof fn lemma_first_index_none(s: Seq<char>, c: char)
    requires
        forall|j: int| 0 <= j < s.len() ==> s[j] != c,
    ensures
        first_index_of(s, c) is None,
    decreases s.len(),
{
    if s.len() > 0 {
        let rest = s.drop_first();
        assert forall|j: int| 0 <= j < rest.len() implies rest[j] != c by {
            assert(rest[j] == s[j + 1]);
        }
        lemma_first_index_none(rest, c);
    }
}

/// Find the first occurrence of `c` in `s`.
pub fn find_char(s: &str, c: char) -> (r: Option<usize>)
    ensures
        match first_index_of(s@, c) {
            Some(i) => r matches Some(x) && x as int == i && i < s@.len(),
            None => r is None,
        },
{
    let n = s.unicode_len();
    let mut i: usize = 0;
    while i < n
        invariant
            n == s@.len(),
            i <= n,
            forall|j: int| 0 <= j < i ==> s@[j] != c,
        decreases n - i,
    {
        if s.get_char(i) == c {
            proof {
                lemma_first_index_found(s@, c, i as int);
            }
            return Some(i);
        }
        i += 1;
    }
    proof {
        lemma_first_index_none(s@, c);
    }
    None
}

/// The value of a hexadecimal digit, if the character is one.
pub open spec fn hex_digit_val(c: char) -> Option<int> {
    let u = c as u32;
    if 48 <= u <= 57 {
        Some((u - 48) as int)
    } else if 97 <= u <= 102 {
        Some((u - 87) as int)
    } else if 65 <= u <= 70 {
        Some((u - 55) as int)
    } else {
        None
    }
}

fn hex_digit(c: char) -> (r: Option<u8>)
    ensures
        match hex_digit_val(c) {
            Some(v) => r matches Some(x) && x as int == v && 0 <= v < 16,
            None => r is None,
        },
{
    let u = c as u32;
    if 48 <= u && u <= 57 {
        Some((u - 48) as u8)
    } else if 97 <= u && u <= 102 {
        Some((u - 87) as u8)
    } else if 65 <= u && u <= 70 {
        Some((u - 55) as u8)
    } else {
        None
    }
}

/// Percent-decoding of a query component: `+` becomes a space; `%` followed
/// by two hexadecimal digits encoding an ASCII byte becomes that character;
/// anything else (including non-ASCII escapes) is kept verbatim.
pub open spec fn spec_urldecode(s: Seq<char>) -> Seq<char>
    decreases s.len(),
{
    if s.len() == 0 {
        Seq::empty()
    } else if s[0] == '+' {
        seq![' '] + spec_urldecode(s.drop_first())
    } else if s[0] == '%' && s.len() >= 3 && hex_digit_val(s[1]) is Some && hex_digit_val(
        s[2],
    ) is Some && (hex_digit_val(s[1])->Some_0 * 16 + hex_digit_val(s[2])->Some_0) < 128 {
        seq![
            ((hex_digit_val(s[1])->Some_0 * 16 + hex_digit_val(s[2])->Some_0) as u8) as char,
        ] + spec_urldecode(s.subrange(3, s.len() as int))
    } else {
        seq![s[0]] + spec_urldecode(s.drop_first())
    }
}

/// Percent-decode a query component.
pub fn urldecode(s: &str) -> (r: String)
    ensures
        r@ == spec_urldecode(s@),
{
    let n = s.unicode_len();
    let mut out = String::new();
    proof {
        assert(s@.subrange(0, n as int) =~= s@);
        assert(out@ + spec_urldecode(s@) =~= spec_urldecode(s@));
    }
    let mut i: usize = 0;
    while i < n
        invariant
            n == s@.len(),
            i <= n,
            spec_urldecode(s@) == out@ + spec_urldecode(s@.subrange(i as int, n as int)),
        decreases n - i,
    {
        let ghost rest = s@.subrange(i as int, n as int);
        proof {
            assert(rest[0] == s@[i as int]);
            assert(rest.drop_first() =~= s@.subrange(i as int + 1, n as int));
        }
        let c = s.get_char(i);
        if c == '+' {
            push_char(&mut out, ' ');
            proof {
                assert(out@ + spec_urldecode(s@.subrange(i as int + 1, n as int)) =~= spec_urldecode(
                    s@,
                ));
            }
            i += 1;
        } else if c == '%' && n - i > 2 {
            let h1 = hex_digit(s.get_char(i + 1));
            let h2 = hex_digit(s.get_char(i + 2));
            proof {
                assert(rest[1] == s@[i as int + 1]);
                assert(rest[2] == s@[i as int + 2]);
            }
            match (h1, h2) {
                (Some(a), Some(b)) => {
                    let v: u8 = a * 16 + b;
                    if v < 128 {
                        push_char(&mut out, v as char);
                        proof {
                            assert(rest.subrange(3, rest.len() as int) =~= s@.subrange(
                                i as int + 3,
                                n as int,
                            ));
                            assert(out@ + spec_urldecode(s@.subrange(i as int + 3, n as int))
                                =~= spec_urldecode(s@));
                        }
                        i += 3;
                    } else {
                        push_char(&mut out, c);
                        proof {
                            assert(out@ + spec_urldecode(s@.subrange(i as int + 1, n as int))
                                =~= spec_urldecode(s@));
                        }
                        i += 1;
                    }
                },
                _ => {
                    push_char(&mut out, c);
                    proof {
                        assert(out@ + spec_urldecode(s@.subrange(i as int + 1, n as int))
                            =~= spec_urldecode(s@));
                    }
                    i += 1;
                },
            }
        } else {
            push_char(&mut out, c);
            proof {
                assert(out@ + spec_urldecode(s@.subrange(i as int + 1, n as int)) =~= spec_urldecode(
                    s@,
                ));
            }
            i += 1;
        }
    }
    proof {
        assert(s@.subrange(n as int, n as int) =~= Seq::<char>::empty());
        assert(out@ + Seq::<char>::empty() =~= out@);
    }
    out
}

/// An entry split at its first `=`: `(key, value)`, the value empty when
/// there is no `=`.
pub open spec fn entry_pair(e: Seq<char>) -> (Seq<char>, Seq<char>) {
    match first_index_of(e, '=') {
        Some(i) => (e.subrange(0, i), e.subrange(i + 1, e.len() as int)),
        None => (e, Seq::empty()),
    }
}

/// The cookie pairs of a `cookie` header: fields split on `;`, trimmed,
/// each split at its first `=`.
pub open spec fn cookie_pairs(h: Seq<char>) -> Seq<(Seq<char>, Seq<char>)> {
    spec_split(h, ';').map_values(|e: Seq<char>| entry_pair(spec_trim(e)))
}

/// The query pairs of a query string: fields split on `&`, each split at
/// its first `=`, both sides percent-decoded.
pub open spec fn query_pairs(q: Seq<char>) -> Seq<(Seq<char>, Seq<char>)> {
    spec_split(q, '&').map_values(
        |e: Seq<char>|
            (spec_urldecode(entry_pair(e).0), spec_urldecode(entry_pair(e).1)),
    )
}

/// Split an owned entry at its first `=`.
fn split_entry(e: &str) -> (r: (String, String))
    ensures
        r.0@ == entry_pair(e@).0,
        r.1@ == entry_pair(e@).1,
{
    let n = e.unicode_len();
    match find_char(e, '=') {
        Some(i) => (e.substring_char(0, i).to_owned(), e.substring_char(i + 1, n).to_owned()),
        None => (e.to_owned(), String::new()),
    }
}

/// Parse a `cookie` header into a field container: fields split on `;`,
/// trimmed, split at the first `=`, inserted in order (an empty header
/// yields an empty container).
pub fn parse_cookies(h: &str) -> (r: RequestField)
    ensures
        r.wf(),
        h@.len() == 0 ==> r@ == Map::<Seq<char>, Seq<char>>::empty(),
        h@.len() > 0 ==> r@ == spec_add_all(cookie_pairs(h@)),
{
    let mut r = RequestField::new();
    if h.unicode_len() == 0 {
        return r;
    }
    let parts = split_on(h, ';');
    let ghost ps = cookie_pairs(h@);
    let n = parts.len();
    let mut i: usize = 0;
    while i < n
        invariant
            n == parts@.len(),
            ps == cookie_pairs(h@),
            ps.len() == n,
            forall|j: int| 0 <= j < n ==> ps[j] == entry_pair(
                spec_trim((#[trigger] parts@[j])@),
            ),
            i <= n,
            r.wf(),
            r@ == spec_add_all(ps.subrange(0, i as int)),
        decreases n - i,
    {
        let e = trim_spaces(parts[i].as_str());
        let (k, v) = split_entry(e.as_str());
        proof {
            assert(ps.subrange(0, i as int + 1).drop_last() =~= ps.subrange(0, i as int));
            assert(ps.subrange(0, i as int + 1).last() == ps[i as int]);
        }
        r.add(k, v);
        i += 1;
    }
    proof {
        assert(ps.subrange(0, n as int) =~= ps);
    }
    r
}

/// Parse a query string into the argument container: fields split on `&`,
/// split at the first `=`, percent-decoded, inserted in order (an empty
/// query yields an empty container).
pub fn parse_query(q: &str) -> (r: RequestField)
    ensures
        r.wf(),
        q@.len() == 0 ==> r@ == Map::<Seq<char>, Seq<char>>::empty(),
        q@.len() > 0 ==> r@ == spec_add_all(query_pairs(q@)),
{
    let mut r = RequestField::new();
    if q.unicode_len() == 0 {
        return r;
    }
    let parts = split_on(q, '&');
    let ghost ps = query_pairs(q@);
    let n = parts.len();
    let mut i: usize = 0;
    while i < n
        invariant
            n == parts@.len(),
            ps == query_pairs(q@),
            ps.len() == n,
            forall|j: int| 0 <= j < n ==> ps[j] == (
                spec_urldecode(entry_pair((#[trigger] parts@[j])@).0),
                spec_urldecode(entry_pair((#[trigger] parts@[j])@).1),
            ),
            i <= n,
            r.wf(),
            r@ == spec_add_all(ps.subrange(0, i as int)),
        decreases n - i,
    {
        let (rk, rv) = split_entry(parts[i].as_str());
        let k = urldecode(rk.as_str());
        let v = urldecode(rv.as_str());
        proof {
            assert(ps.subrange(0, i as int + 1).drop_last() =~= ps.subrange(0, i as int));
            assert(ps.subrange(0, i as int + 1).last() == ps[i as int]);
        }
        r.add(k, v);
        i += 1;
    }
    proof {
        assert(ps.subrange(0, n as int) =~= ps);
    }
    r
}

/// The forwarded-for entries: fields split on `,`, trimmed.
pub open spec fn xff_entries(v: Seq<char>) -> Seq<Seq<char>> {
    spec_split(v, ',').map_values(|e: Seq<char>| spec_trim(e))
}

/// The entry the trusted-hop count selects: index `len - hops`, clamped
/// into range. When the header is present it is always used, never the
/// peer address.
pub open spec fn spec_selected_xff(v: Seq<char>, hops: int) -> Seq<char> {
    let es = xff_entries(v);
    let idx = if es.len() - hops < 0 {
        0
    } else if es.len() - hops > es.len() - 1 {
        es.len() - 1
    } else {
        es.len() - hops
    };
    es[idx]
}

/// The resolved client IP: the selected forwarded-for entry when the header
/// is present, else the direct peer address.
pub open spec fn spec_client_ip(xff: Option<Seq<char>>, peer: Seq<char>, hops: int) -> Seq<
    char,
> {
    match xff {
        Some(v) => spec_selected_xff(v, hops),
        None => peer,
    }
}

/// Resolve the client IP from the headers: parse `x-forwarded-for` as a
/// left-to-right list and take the entry at `len - hops`, clamped into
/// range; fall back to the direct peer address only when the header is
/// absent.
pub fn ip_from_headers(headers: &RequestField, peer: &str, hops: usize) -> (r: String)
    requires
        headers.wf(),
    ensures
        r@ == spec_client_ip(
            if headers@.contains_key("x-forwarded-for"@) {
                Some(headers@["x-forwarded-for"@])
            } else {
                None
            },
            peer@,
            hops as int,
        ),
{
    let v = match headers.get_str("x-forwarded-for") {
        None => {
            return peer.to_owned();
        },
        Some(v) => v,
    };
    let parts = split_on(v, ',');
    let n = parts.len();
    proof {
        lemma_split_len(v@, ',');
        assert(xff_entries(v@).len() == n);
    }
    let idx = if hops == 0 {
        n - 1
    } else if hops >= n {
        0
    } else {
        n - hops
    };
    proof {
        assert(xff_entries(v@)[idx as int] == spec_trim(parts@[idx as int]@));
        assert(spec_selected_xff(v@, hops as int) == xff_entries(v@)[idx as int]);
    }
    trim_spaces(parts[idx].as_str())
}

/// The canonical, immutable-after-construction request record.
pub struct RequestInfo {
    /// Client IP resolved from `x-forwarded-for`, honoring the trusted-hop
    /// count, else the direct peer address.
    pub ip: String,
    /// The `:authority` pseudo-header (or `host`).
    pub authority: String,
    /// The `:method` pseudo-header.
    pub method: String,
    /// The path part of `:path`, before any `?`.
    pub path: String,
    /// The raw query part of `:path`, after the first `?`.
    pub query: String,
    /// The URI reassembled for challenge matching.
    pub uri: String,
    /// Query arguments, URL-decoded and merged.
    pub args: RequestField,
    /// Request headers.
    pub headers: RequestField,
    /// Cookies, split from the `cookie` header.
    pub cookies: RequestField,
}

impl RequestInfo {
    /// Well-formed: the three field containers are well-formed.
    pub open spec fn wf(self) -> bool {
        self.args.wf() && self.headers.wf() && self.cookies.wf()
    }
}

/// The value under `k`, or the empty string when absent.
pub open spec fn lookup_or_empty(m: Map<Seq<char>, Seq<char>>, k: Seq<char>) -> Seq<char> {
    if m.contains_key(k) {
        m[k]
    } else {
        Seq::empty()
    }
}

/// The authority: the `:authority` pseudo-header, else `host`, else empty.
pub open spec fn spec_authority(m: Map<Seq<char>, Seq<char>>) -> Seq<char> {
    if m.contains_key(":authority"@) {
        m[":authority"@]
    } else {
        lookup_or_empty(m, "host"@)
    }
}

/// The `(path, query)` split of a raw `:path`: at the first `?`, the query
/// empty when there is none.
pub open spec fn spec_path_query(rp: Seq<char>) -> (Seq<char>, Seq<char>) {
    match first_index_of(rp, '?') {
        Some(i) => (rp.subrange(0, i), rp.subrange(i + 1, rp.len() as int)),
        None => (rp, Seq::empty()),
    }
}

/// Build the canonical request record from the resolved client IP and the
/// case-lowered proxy headers (pseudo-headers included), in their given
/// order.
pub fn map_request(ip: String, metaheaders: Vec<(String, String)>) -> (r: RequestInfo)
    ensures
        r.wf(),
        r.ip@ == ip@,
        r.headers@ == spec_add_all(metaheaders@.map_values(|p: (String, String)| (p.0@, p.1@))),
        r.authority@ == spec_authority(r.headers@),
        r.method@ == lookup_or_empty(r.headers@, ":method"@),
        r.uri@ == lookup_or_empty(r.headers@, ":path"@),
        r.path@ == spec_path_query(r.uri@).0,
        r.query@ == spec_path_query(r.uri@).1,
        r.query@.len() == 0 ==> r.args@ == Map::<Seq<char>, Seq<char>>::empty(),
        r.query@.len() > 0 ==> r.args@ == spec_add_all(query_pairs(r.query@)),
        ({
            let ck = lookup_or_empty(r.headers@, "cookie"@);
            (ck.len() == 0 ==> r.cookies@ == Map::<Seq<char>, Seq<char>>::empty()) && (ck.len()
                > 0 ==> r.cookies@ == spec_add_all(cookie_pairs(ck)))
        }),
{
    let ghost pview = metaheaders@.map_values(|p: (String, String)| (p.0@, p.1@));
    let mut headers = RequestField::new();
    let n = metaheaders.len();
    let mut i: usize = 0;
    while i < n
        invariant
            n == metaheaders@.len(),
            pview == metaheaders@.map_values(|p: (String, String)| (p.0@, p.1@)),
            i <= n,
            headers.wf(),
            headers@ == spec_add_all(pview.subrange(0, i as int)),
        decreases n - i,
    {
        let (k, v) = (metaheaders[i].0.clone(), metaheaders[i].1.clone());
        proof {
            assert(pview.subrange(0, i as int + 1).drop_last() =~= pview.subrange(0, i as int));
            assert(pview.subrange(0, i as int + 1).last() == pview[i as int]);
        }
        headers.add(k, v);
        i += 1;
    }
    proof {
        assert(pview.subrange(0, n as int) =~= pview);
    }
    let authority = match headers.get_str(":authority") {
        Some(a) => a.to_owned(),
        None => match headers.get_str("host") {
            Some(h) => h.to_owned(),
            None => String::new(),
        },
    };
    let method = match headers.get_str(":method") {
        Some(m) => m.to_owned(),
        None => String::new(),
    };
    let uri = match headers.get_str(":path") {
        Some(p) => p.to_owned(),
        None => String::new(),
    };
    let un = uri.as_str().unicode_len();
    let (path, query) = match find_char(uri.as_str(), '?') {
        Some(qi) => (
            uri.as_str().substring_char(0, qi).to_owned(),
            uri.as_str().substring_char(qi + 1, un).to_owned(),
        ),
        None => (uri.clone(), String::new()),
    };
    let args = parse_query(query.as_str());
    let cookies = match headers.get_str("cookie") {
        Some(c) => parse_cookies(c),
        None => RequestField::new(),
    };
    RequestInfo { ip, authority, method, path, query, uri, args, headers, cookies }
}

} // verus!
