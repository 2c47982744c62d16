//! Autofill candidate selection: metadata-only matching before decryption.
//!
//! `website_url` is the primary signal for browser autofill; title and username remain
//! fallbacks for legacy entries and Android package names. The origin is an Android
//! package name (`com.twitter.android`) or a web host (`account.proton.me`).
use vstd::prelude::*;
use vstd::utf8::{encode_scalar, encode_utf8};

use crate::text::{
    before_char_exec, blank, contains_chars, ends_with_chars, is_piece_exec,
    before_char, chars_eq, chars_of, contains, ends_with, has_char, has_char_exec, is_blank, is_piece,
    lemma_lex_total, lemma_lex_trans, lex_compare, lex_lt, lowercase_chars, lowercase_of,
    next_char, next_char_exec, piece_start, slice_chars, string_from_chars, strip_prefixes,
    strip_prefixes_chars, trim, trimmed,
};
use crate::vault::DecryptedPasswordEntry;

verus! {

/// The origin as matching sees it: trimmed, then lowercased.
pub open spec fn origin_key(origin: Seq<char>) -> Seq<char> {
    lowercase_of(trim(origin))
}

/// Package-name segments that carry no meaning for matching.
pub open spec fn is_generic_segment(c: Seq<char>) -> bool {
    ||| c == "com"@
    ||| c == "org"@
    ||| c == "net"@
    ||| c == "io"@
    ||| c == "app"@
    ||| c == "android"@
    ||| c == "mobile"@
}

/// The key looks like a package name: it has a dot and no slash.
pub open spec fn is_package_key(t: Seq<char>) -> bool {
    has_char(t, '.') && !has_char(t, '/')
}

/// A segment of a package name that serves as a needle: at least three UTF-8 bytes
/// and not a generic segment.
pub open spec fn is_meaningful_segment(t: Seq<char>, c: Seq<char>) -> bool {
    is_piece(t, '.', c) && encode_utf8(c).len() >= 3 && !is_generic_segment(c)
}

/// `c` is one of the strings that the origin key `t` (trimmed and lowercased) is
/// matched by: the key itself, plus its meaningful segments for a package name or the
/// key without leading `www.` otherwise.
pub open spec fn is_key_needle(t: Seq<char>, c: Seq<char>) -> bool {
    t.len() > 0 && (c == t || if is_package_key(t) {
        is_meaningful_segment(t, c)
    } else {
        c == strip_prefixes(t, "www."@)
    })
}

/// `c` is one of the strings that `origin` is matched by.
pub open spec fn is_needle(origin: Seq<char>, c: Seq<char>) -> bool {
    is_key_needle(origin_key(origin), c)
}

/// The host part of an already trimmed and lowercased address: scheme, path, port
/// and leading `www.` removed.
pub open spec fn host_of(h: Seq<char>) -> Seq<char> {
    let h = strip_prefixes(strip_prefixes(h, "https://"@), "http://"@);
    let h = before_char(before_char(h, '/'), ':');
    strip_prefixes(h, "www."@)
}

/// A host reduced for comparison: trimmed, lowercased, then [`host_of`].
pub open spec fn normalized_host(raw: Seq<char>) -> Seq<char> {
    host_of(lowercase_of(trim(raw)))
}

/// Host matching on trimmed, lowercased addresses: a dotted needle matches the same
/// host, a subdomain of it, or its parent; a single label matches only a whole
/// dot-separated part of the host.
pub open spec fn lowered_hosts_match(needle: Seq<char>, website: Seq<char>) -> bool {
    let n = host_of(needle);
    let w = host_of(website);
    n.len() > 0 && w.len() > 0 && if has_char(n, '.') {
        w == n || ends_with(w, seq!['.'] + n) || ends_with(n, seq!['.'] + w)
    } else {
        is_piece(w, '.', n)
    }
}

/// Host matching on raw addresses: both are trimmed and lowercased first.
pub open spec fn hosts_match(needle: Seq<char>, website: Seq<char>) -> bool {
    lowered_hosts_match(lowercase_of(trim(needle)), lowercase_of(trim(website)))
}

/// Whether `needle` matches the metadata of `e`.
pub open spec fn needle_matches(needle: Seq<char>, e: DecryptedPasswordEntry) -> bool {
    let title = lowercase_of(e.title@);
    let username = lowercase_of(e.username@);
    let website = lowercase_of(e.website_url@);
    ||| website.len() > 0 && hosts_match(needle, website)
    ||| title.len() > 0 && (contains(title, needle) || contains(needle, title) || contains(
        title,
        before_char(needle, '/'),
    ))
    ||| username.len() > 0 && contains(username, needle)
}

/// `e` plausibly belongs to `origin`.
pub open spec fn entry_matches_origin(origin: Seq<char>, e: DecryptedPasswordEntry) -> bool {
    exists|c: Seq<char>| is_needle(origin, c) && #[trigger] needle_matches(c, e)
}

/// Browser packages that sometimes omit the web domain.
pub open spec fn is_browser_key(t: Seq<char>) -> bool {
    ||| t == "com.android.chrome"@
    ||| t == "com.chrome.beta"@
    ||| t == "com.chrome.dev"@
    ||| t == "com.chrome.canary"@
    ||| t == "com.google.android.apps.chrome"@
    ||| t == "org.chromium.chrome"@
    ||| t == "com.brave.browser"@
    ||| t == "org.mozilla.firefox"@
    ||| t == "com.microsoft.emmx"@
    ||| t == "com.opera.browser"@
    ||| t == "com.sec.android.app.sbrowser"@
}

/// The entries [`filter_for_origin`] returns.
pub open spec fn autofill_selection(entries: Seq<DecryptedPasswordEntry>, origin: Seq<char>) -> Seq<
    DecryptedPasswordEntry,
> {
    if origin_key(origin).len() == 0 {
        entries
    } else {
        let matched = entries.filter(|e: DecryptedPasswordEntry| entry_matches_origin(origin, e));
        if matched.len() > 0 {
            matched
        } else if is_browser_key(origin_key(origin)) {
            entries.filter(|e: DecryptedPasswordEntry| !is_blank(e.website_url@))
        } else {
            seq![]
        }
    }
}

/// The lowercase form of the characters `s`.
fn lowercase_of_chars(s: &Vec<char>) -> (r: Vec<char>)
    ensures
        r@ == lowercase_of(s@),
{
    let st = string_from_chars(s);
    lowercase_chars(st.as_str())
}

/// Number of bytes in the UTF-8 encoding of `c`.
fn utf8_width(c: char) -> (r: usize)
    ensures
        r == encode_scalar(c as u32).len(),
{
    let u = c as u32;
    if u <= 0x7f {
        1
    } else if u <= 0x7ff {
        2
    } else if u <= 0xffff && !(0xd800 <= u && u <= 0xdfff) {
        3
    } else {
        4
    }
}

/// Whether the UTF-8 encoding of `s` has at least three bytes (`str::len() >= 3`).
fn utf8_len_at_least_3(s: &Vec<char>) -> (r: bool)
    ensures
        r == (encode_utf8(s@).len() >= 3),
{
    let mut acc: usize = 0;
    let mut i: usize = s.len();
    assert(s@.skip(s.len() as int).len() == 0);
    while i > 0
        invariant
            i <= s.len(),
            acc <= 3,
            acc == if encode_utf8(s@.skip(i as int)).len() >= 3 {
                3
            } else {
                encode_utf8(s@.skip(i as int)).len()
            },
        decreases i,
    {
        i = i - 1;
        let w = utf8_width(s[i]);
        assert(s@.skip(i as int).drop_first() =~= s@.skip(i + 1));
        acc = if acc + w >= 3 {
            3
        } else {
            acc + w
        };
    }
    assert(s@.skip(0) =~= s@);
    acc >= 3
}

/// Whether `c` is one of the generic package segments.
fn generic_segment(c: &Vec<char>) -> (r: bool)
    ensures
        r == is_generic_segment(c@),
{
    chars_eq(c, &chars_of("com")) || chars_eq(c, &chars_of("org")) || chars_eq(c, &chars_of("net"))
        || chars_eq(c, &chars_of("io")) || chars_eq(c, &chars_of("app")) || chars_eq(
        c,
        &chars_of("android"),
    ) || chars_eq(c, &chars_of("mobile"))
}

/// The trimmed, lowercased origin.
fn origin_key_exec(origin: &str) -> (r: Vec<char>)
    ensures
        r@ == origin_key(origin@),
{
    let t = trimmed(&chars_of(origin));
    lowercase_of_chars(&t)
}

/// Whether `needles` holds the view `c`.
pub open spec fn holds_view(needles: Seq<Vec<char>>, c: Seq<char>) -> bool {
    exists|k: int| 0 <= k < needles.len() && #[trigger] needles[k]@ == c
}

/// The strings are in strictly increasing [`lex_lt`] order: sorted, no duplicates.
pub open spec fn strictly_sorted(v: Seq<Vec<char>>) -> bool {
    forall|i: int, j: int| 0 <= i < j < v.len() ==> lex_lt(#[trigger] v[i]@, #[trigger] v[j]@)
}

/// Inserts `x` into the sorted `v` at its place, unless `v` already holds it.
fn insert_sorted(v: &mut Vec<Vec<char>>, x: Vec<char>)
    requires
        strictly_sorted(old(v)@),
    ensures
        strictly_sorted(final(v)@),
        forall|c: Seq<char>| #[trigger] holds_view(final(v)@, c) <==> (holds_view(old(v)@, c) || c == x@),
{
    let ghost o = v@;
    let mut p: usize = 0;
    while p < v.len()
        invariant
            v@ == o,
            p <= v.len(),
            forall|k: int| 0 <= k < p ==> lex_lt(#[trigger] o[k]@, x@),
        ensures
            v@ == o,
            p <= v.len(),
            forall|k: int| 0 <= k < p ==> lex_lt(#[trigger] o[k]@, x@),
            p < v.len() ==> !lex_lt(o[p as int]@, x@),
        decreases v.len() - p,
    {
        let (lt, _) = lex_compare(&v[p], &x);
        if !lt {
            break;
        }
        p = p + 1;
    }
    if p < v.len() {
        let (_, eq) = lex_compare(&v[p], &x);
        if eq {
            proof {
                assert forall|c: Seq<char>| #[trigger] holds_view(v@, c) <==> (holds_view(o, c) || c == x@) by {
                    if c == x@ {
                        assert(o[p as int]@ == c);
                    }
                }
            }
            return;
        }
        proof {
            lemma_lex_total(o[p as int]@, x@);
        }
    }
    let ghost xv = x@;
    v.insert(p, x);
    proof {
        let n = v@;
        assert(n == o.insert(p as int, n[p as int]));
        assert(n[p as int]@ == xv);
        assert forall|i: int, j: int| 0 <= i < j < n.len() implies lex_lt(#[trigger] n[i]@, #[trigger] n[j]@) by {
            if j < p {
                assert(n[i] == o[i] && n[j] == o[j]);
            } else if j == p {
                assert(n[i] == o[i]);
            } else if i < p {
                assert(n[i] == o[i] && n[j] == o[j - 1]);
                assert(lex_lt(o[i]@, xv));
                if j - 1 > p as int {
                    assert(lex_lt(o[p as int]@, o[j - 1]@));
                    lemma_lex_trans(xv, o[p as int]@, o[j - 1]@);
                }
                lemma_lex_trans(o[i]@, xv, o[j - 1]@);
            } else if i == p {
                assert(n[j] == o[j - 1]);
                if j - 1 > p as int {
                    assert(lex_lt(o[p as int]@, o[j - 1]@));
                    lemma_lex_trans(xv, o[p as int]@, o[j - 1]@);
                }
            } else {
                assert(n[i] == o[i - 1] && n[j] == o[j - 1]);
            }
        }
        assert forall|c: Seq<char>| #[trigger] holds_view(n, c) <==> (holds_view(o, c) || c == xv) by {
            if holds_view(n, c) {
                let k = choose|k: int| 0 <= k < n.len() && #[trigger] n[k]@ == c;
                if k < p {
                    assert(o[k]@ == c);
                } else if k > p {
                    assert(o[k - 1]@ == c);
                }
            }
            if holds_view(o, c) {
                let k = choose|k: int| 0 <= k < o.len() && #[trigger] o[k]@ == c;
                if k < p {
                    assert(n[k]@ == c);
                } else {
                    assert(n[k + 1]@ == c);
                }
            }
            if c == xv {
                assert(n[p as int]@ == c);
            }
        }
    }
}

/// The strings of `v` in strictly increasing order, each once.
fn sort_dedup(v: &Vec<Vec<char>>) -> (r: Vec<Vec<char>>)
    ensures
        strictly_sorted(r@),
        forall|c: Seq<char>| #[trigger] holds_view(r@, c) <==> holds_view(v@, c),
{
    let mut out: Vec<Vec<char>> = Vec::new();
    let mut i: usize = 0;
    while i < v.len()
        invariant
            i <= v.len(),
            strictly_sorted(out@),
            forall|c: Seq<char>| #[trigger] holds_view(out@, c) <==> holds_view(v@.take(i as int), c),
        decreases v.len() - i,
    {
        let item = slice_chars(&v[i], 0, v[i].len());
        assert(v@[i as int]@.subrange(0, v@[i as int]@.len() as int) =~= v@[i as int]@);
        let ghost before = out@;
        insert_sorted(&mut out, item);
        proof {
            assert forall|c: Seq<char>| #[trigger] holds_view(out@, c) <==> holds_view(v@.take(i + 1), c) by {
                let t = v@.take(i + 1);
                if holds_view(t, c) {
                    let k = choose|k: int| 0 <= k < t.len() && #[trigger] t[k]@ == c;
                    if k < i {
                        assert(v@.take(i as int)[k]@ == c);
                    }
                }
                if holds_view(v@.take(i as int), c) {
                    let k = choose|k: int| 0 <= k < i && #[trigger] v@.take(i as int)[k]@ == c;
                    assert(t[k]@ == c);
                }
                if c == v@[i as int]@ {
                    assert(t[i as int]@ == c);
                }
            }
        }
        i = i + 1;
    }
    assert(v@.take(v.len() as int) =~= v@);
    out
}

/// The needles of an origin key `t` (already trimmed and lowercased): `t`, plus its
/// meaningful segments for a package name or `t` without leading `www.` otherwise,
/// in increasing order and each once. An empty key has none.
pub fn needles_of_key(t: &Vec<char>) -> (r: Vec<Vec<char>>)
    ensures
        forall|c: Seq<char>| #[trigger] is_key_needle(t@, c) <==> holds_view(r@, c),
        (r@.len() == 0) == (t@.len() == 0),
        strictly_sorted(r@),
{
    let raw = collect_needles(t);
    let sorted = sort_dedup(&raw);
    proof {
        if t@.len() > 0 {
            assert(holds_view(raw@, raw@[0]@));
            assert(holds_view(sorted@, raw@[0]@));
        }
        if sorted@.len() > 0 {
            assert(holds_view(sorted@, sorted@[0]@));
        }
    }
    sorted
}

/// The needles of `t`, in the order they are found (see [`needles_of_key`]).
fn collect_needles(t: &Vec<char>) -> (r: Vec<Vec<char>>)
    ensures
        forall|c: Seq<char>| #[trigger] is_key_needle(t@, c) <==> holds_view(r@, c),
        (r@.len() == 0) == (t@.len() == 0),
{
    let mut needles: Vec<Vec<char>> = Vec::new();
    if t.len() == 0 {
        return needles;
    }
    let ghost tv = t@;
    needles.push(slice_chars(&t, 0, t.len()));
    assert(t@.subrange(0, t@.len() as int) =~= t@);
    assert(needles@[0]@ == tv);
    if has_char_exec(&t, '.') && !has_char_exec(&t, '/') {
        let n = t.len();
        let mut i: usize = 0;
        while i <= n
            invariant_except_break
                i <= n,
            invariant
                n == t.len(),
                tv == t@,
                tv.len() > 0,
                is_package_key(tv),
                needles@.len() > 0,
                forall|c: Seq<char>|
                    holds_view(needles@, c) <==> (c == tv || exists|j: int|
                        0 <= j < i && #[trigger] piece_start(tv, '.', j) && c == tv.subrange(
                            j,
                            next_char(tv, '.', j),
                        ) && encode_utf8(c).len() >= 3 && !is_generic_segment(c)),
            ensures
                needles@.len() > 0,
                forall|c: Seq<char>|
                    holds_view(needles@, c) <==> (c == tv || exists|j: int|
                        0 <= j <= n && #[trigger] piece_start(tv, '.', j) && c == tv.subrange(
                            j,
                            next_char(tv, '.', j),
                        ) && encode_utf8(c).len() >= 3 && !is_generic_segment(c)),
            decreases n + 1 - i,
        {
            if i == 0 || t[i - 1] == '.' {
                let e = next_char_exec(&t, '.', i);
                let seg = slice_chars(&t, i, e);
                let ghost prev = needles@;
                if utf8_len_at_least_3(&seg) && !generic_segment(&seg) {
                    needles.push(seg);
                    proof {
                        assert(piece_start(tv, '.', i as int));
                        assert forall|c: Seq<char>| holds_view(needles@, c) <==> (c == tv || exists|j: int|
                            0 <= j < i + 1 && #[trigger] piece_start(tv, '.', j) && c == tv.subrange(
                                j,
                                next_char(tv, '.', j),
                            ) && encode_utf8(c).len() >= 3 && !is_generic_segment(c)) by {
                            if holds_view(needles@, c) {
                                let k = choose|k: int| 0 <= k < needles@.len() && #[trigger] needles@[k]@ == c;
                                if k < prev.len() {
                                    assert(prev[k]@ == c);
                                    assert(holds_view(prev, c));
                                }
                            }
                            if holds_view(prev, c) {
                                let k = choose|k: int| 0 <= k < prev.len() && #[trigger] prev[k]@ == c;
                                assert(needles@[k]@ == c);
                            }
                            if c == tv.subrange(i as int, next_char(tv, '.', i as int)) && encode_utf8(c).len() >= 3 && !is_generic_segment(c) {
                                assert(needles@[prev.len() as int]@ == c);
                            }
                        }
                    }
                } else {
                    proof {
                        assert forall|c: Seq<char>| holds_view(needles@, c) <==> (c == tv || exists|j: int|
                            0 <= j < i + 1 && #[trigger] piece_start(tv, '.', j) && c == tv.subrange(
                                j,
                                next_char(tv, '.', j),
                            ) && encode_utf8(c).len() >= 3 && !is_generic_segment(c)) by {
                            if exists|j: int|
                                0 <= j < i + 1 && #[trigger] piece_start(tv, '.', j) && c == tv.subrange(
                                    j,
                                    next_char(tv, '.', j),
                                ) && encode_utf8(c).len() >= 3 && !is_generic_segment(c) {
                                let j = choose|j: int|
                                    0 <= j < i + 1 && #[trigger] piece_start(tv, '.', j) && c == tv.subrange(
                                        j,
                                        next_char(tv, '.', j),
                                    ) && encode_utf8(c).len() >= 3 && !is_generic_segment(c);
                                assert(j != i);
                            }
                        }
                    }
                }
            }
            if i == n {
                break;
            }
            i = i + 1;
        }
        proof {
            assert forall|c: Seq<char>| #[trigger] is_key_needle(t@, c) <==> holds_view(needles@, c) by {
                if is_meaningful_segment(tv, c) {
                    let j = choose|j: int| piece_start(tv, '.', j) && c == tv.subrange(j, next_char(tv, '.', j));
                    assert(0 <= j < n + 1);
                }
            }
        }
    } else {
        proof {
            reveal_strlit("www.");
        }
        let stripped = strip_prefixes_chars(&t, &chars_of("www."));
        needles.push(stripped);
        proof {
            assert forall|c: Seq<char>| #[trigger] is_key_needle(t@, c) <==> holds_view(needles@, c) by {
                if holds_view(needles@, c) {
                    let k = choose|k: int| 0 <= k < needles@.len() && #[trigger] needles@[k]@ == c;
                    assert(k == 0 || k == 1);
                }
                if c == tv {
                    assert(needles@[0]@ == c);
                }
                if c == strip_prefixes(tv, "www."@) {
                    assert(needles@[1]@ == c);
                }
            }
        }
    }
    needles
}

/// The needles of `origin` (see [`needles_of_key`]).
fn origin_needles(origin: &str) -> (r: Vec<Vec<char>>)
    ensures
        forall|c: Seq<char>| #[trigger] is_needle(origin@, c) <==> holds_view(r@, c),
        (r@.len() == 0) == (origin_key(origin@).len() == 0),
        strictly_sorted(r@),
{
    let t = origin_key_exec(origin);
    needles_of_key(&t)
}

/// The host part of a trimmed, lowercased address (see [`host_of`]).
fn reduce_host(h: &Vec<char>) -> (r: Vec<char>)
    ensures
        r@ == host_of(h@),
{
    proof {
        reveal_strlit("https://");
        reveal_strlit("http://");
        reveal_strlit("www.");
    }
    let h = strip_prefixes_chars(h, &chars_of("https://"));
    let h = strip_prefixes_chars(&h, &chars_of("http://"));
    let h = before_char_exec(&h, '/');
    let h = before_char_exec(&h, ':');
    strip_prefixes_chars(&h, &chars_of("www."))
}

/// `c` followed by `s`.
fn prepend_char(c: char, s: &Vec<char>) -> (r: Vec<char>)
    ensures
        r@ == seq![c] + s@,
{
    let mut r: Vec<char> = Vec::new();
    r.push(c);
    let mut i: usize = 0;
    while i < s.len()
        invariant
            i <= s.len(),
            r@ == seq![c] + s@.take(i as int),
        decreases s.len() - i,
    {
        r.push(s[i]);
        i = i + 1;
        assert(r@ =~= seq![c] + s@.take(i as int));
    }
    assert(s@.take(s.len() as int) =~= s@);
    r
}

/// Host matching on trimmed, lowercased characters (see [`lowered_hosts_match`]).
fn lowered_host_matches_chars(needle: &Vec<char>, website: &Vec<char>) -> (r: bool)
    ensures
        r == lowered_hosts_match(needle@, website@),
{
    let n = reduce_host(needle);
    let w = reduce_host(website);
    if n.len() == 0 || w.len() == 0 {
        return false;
    }
    if has_char_exec(&n, '.') {
        return chars_eq(&w, &n) || ends_with_chars(&w, &prepend_char('.', &n)) || ends_with_chars(
            &n,
            &prepend_char('.', &w),
        );
    }
    is_piece_exec(&w, '.', &n)
}

/// Host matching on characters (see [`hosts_match`]).
fn host_matches_chars(needle: &Vec<char>, website: &Vec<char>) -> (r: bool)
    ensures
        r == hosts_match(needle@, website@),
{
    let n = lowercase_of_chars(&trimmed(needle));
    let w = lowercase_of_chars(&trimmed(website));
    lowered_host_matches_chars(&n, &w)
}

/// Whether `needle` and `website` name the same site: a dotted needle matches the same
/// host, a subdomain of it, or its parent; a single label matches only a whole
/// dot-separated part of the host (so `amazon` does not match `evil-amazon.com`).
pub fn host_matches(needle: &str, website: &str) -> (r: bool)
    ensures
        r == hosts_match(needle@, website@),
{
    host_matches_chars(&chars_of(needle), &chars_of(website))
}

/// [`host_matches`] for addresses that are already trimmed and lowercased.
pub fn lowered_host_matches(needle: &str, website: &str) -> (r: bool)
    ensures
        r == lowered_hosts_match(needle@, website@),
{
    lowered_host_matches_chars(&chars_of(needle), &chars_of(website))
}

/// The part of `needle` before its first `/` occurs in `title`.
fn fuzzy_host_match(needle: &Vec<char>, title: &Vec<char>) -> (r: bool)
    ensures
        r == contains(title@, before_char(needle@, '/')),
{
    let host = before_char_exec(needle, '/');
    contains_chars(title, &host)
}

/// Whether `needle` matches the metadata of `entry`.
fn needle_matches_entry(needle: &Vec<char>, entry: &DecryptedPasswordEntry) -> (r: bool)
    ensures
        r == needle_matches(needle@, *entry),
{
    let title = lowercase_chars(entry.title.as_str());
    let username = lowercase_chars(entry.username.as_str());
    let website = lowercase_chars(entry.website_url.as_str());
    if website.len() > 0 && host_matches_chars(needle, &website) {
        return true;
    }
    if title.len() > 0 && (contains_chars(&title, needle) || contains_chars(needle, &title)
        || fuzzy_host_match(needle, &title)) {
        return true;
    }
    username.len() > 0 && contains_chars(&username, needle)
}

/// Whether any of `needles` matches `entry`.
fn entry_matches(needles: &Vec<Vec<char>>, entry: &DecryptedPasswordEntry) -> (r: bool)
    ensures
        r == exists|k: int| 0 <= k < needles@.len() && needle_matches(#[trigger] needles@[k]@, *entry),
{
    let mut k: usize = 0;
    while k < needles.len()
        invariant
            k <= needles.len(),
            forall|j: int| 0 <= j < k ==> !needle_matches(#[trigger] needles@[j]@, *entry),
        decreases needles.len() - k,
    {
        if needle_matches_entry(&needles[k], entry) {
            return true;
        }
        k = k + 1;
    }
    false
}

/// Whether `origin`, trimmed and lowercased, is a browser package.
fn is_browser_package(origin: &str) -> (r: bool)
    ensures
        r == is_browser_key(origin_key(origin@)),
{
    let t = origin_key_exec(origin);
    chars_eq(&t, &chars_of("com.android.chrome")) || chars_eq(&t, &chars_of("com.chrome.beta"))
        || chars_eq(&t, &chars_of("com.chrome.dev")) || chars_eq(&t, &chars_of("com.chrome.canary"))
        || chars_eq(&t, &chars_of("com.google.android.apps.chrome")) || chars_eq(
        &t,
        &chars_of("org.chromium.chrome"),
    ) || chars_eq(&t, &chars_of("com.brave.browser")) || chars_eq(
        &t,
        &chars_of("org.mozilla.firefox"),
    ) || chars_eq(&t, &chars_of("com.microsoft.emmx")) || chars_eq(
        &t,
        &chars_of("com.opera.browser"),
    ) || chars_eq(&t, &chars_of("com.sec.android.app.sbrowser"))
}

/// Returns the vault entries whose metadata plausibly matches `origin`.
///
/// A blank origin keeps every entry. Otherwise the entries that some needle of the
/// origin matches are returned in order; when none match and the origin is a browser
/// package, the entries with a website are returned instead; else nothing.
pub fn filter_for_origin(entries: Vec<DecryptedPasswordEntry>, origin: &str) -> (r: Vec<
    DecryptedPasswordEntry,
>)
    ensures
        r@ == autofill_selection(entries@, origin@),
{
    let needles = origin_needles(origin);
    if needles.len() == 0 {
        return entries;
    }
    let ghost pred = |e: DecryptedPasswordEntry| entry_matches_origin(origin@, e);
    let mut filtered: Vec<DecryptedPasswordEntry> = Vec::new();
    let mut i: usize = 0;
    while i < entries.len()
        invariant
            i <= entries.len(),
            filtered@ == entries@.take(i as int).filter(pred),
            pred == (|e: DecryptedPasswordEntry| entry_matches_origin(origin@, e)),
            forall|c: Seq<char>| #[trigger] is_needle(origin@, c) <==> holds_view(needles@, c),
        decreases entries.len() - i,
    {
        reveal_with_fuel(Seq::filter, 1);
        let m = entry_matches(&needles, &entries[i]);
        proof {
            let e = entries@[i as int];
            if m {
                let k = choose|k: int| 0 <= k < needles@.len() && needle_matches(#[trigger] needles@[k]@, e);
                assert(holds_view(needles@, needles@[k]@));
                assert(is_needle(origin@, needles@[k]@));
            }
            if entry_matches_origin(origin@, e) {
                let c = choose|c: Seq<char>| is_needle(origin@, c) && #[trigger] needle_matches(c, e);
                assert(holds_view(needles@, c));
                let k = choose|k: int| 0 <= k < needles@.len() && #[trigger] needles@[k]@ == c;
                assert(needle_matches(needles@[k]@, e));
            }
            assert(entries@.take(i + 1).drop_last() =~= entries@.take(i as int));
        }
        if m {
            filtered.push(entries[i].duplicate());
        }
        i = i + 1;
    }
    assert(entries@.take(entries.len() as int) =~= entries@);
    if filtered.len() > 0 {
        return filtered;
    }
    if is_browser_package(origin) {
        let ghost web_pred = |e: DecryptedPasswordEntry| !is_blank(e.website_url@);
        let mut web: Vec<DecryptedPasswordEntry> = Vec::new();
        let mut i: usize = 0;
        while i < entries.len()
            invariant
                i <= entries.len(),
                web@ == entries@.take(i as int).filter(web_pred),
                web_pred == (|e: DecryptedPasswordEntry| !is_blank(e.website_url@)),
            decreases entries.len() - i,
        {
            reveal_with_fuel(Seq::filter, 1);
            let site = chars_of(entries[i].website_url.as_str());
            let is_web = !blank(&site);
            proof {
                assert(entries@.take(i + 1).drop_last() =~= entries@.take(i as int));
            }
            if is_web {
                web.push(entries[i].duplicate());
            }
            i = i + 1;
        }
        assert(entries@.take(entries.len() as int) =~= entries@);
        if web.len() > 0 {
            return web;
        }
    }
    Vec::new()
}

proof fn lemma_filter_subset(s: Seq<DecryptedPasswordEntry>, p: spec_fn(DecryptedPasswordEntry) -> bool, i: int)
    requires
        0 <= i < s.filter(p).len(),
    ensures
        s.contains(s.filter(p)[i]),
        p(s.filter(p)[i]),
    decreases s.len(),
{
    reveal(Seq::filter);
    let f = s.filter(p);
    let init = s.drop_last();
    if i < init.filter(p).len() {
        lemma_filter_subset(init, p, i);
        let j = choose|j: int| 0 <= j < init.len() && init[j] == init.filter(p)[i];
        assert(s[j] == f[i]);
    } else {
        assert(f[i] == s.last());
        assert(s[s.len() - 1] == f[i]);
    }
}

/// Autofill only returns entries it was given.
pub proof fn lemma_selection_from_entries(
    entries: Seq<DecryptedPasswordEntry>,
    origin: Seq<char>,
    i: int,
)
    requires
        0 <= i < autofill_selection(entries, origin).len(),
    ensures
        entries.contains(autofill_selection(entries, origin)[i]),
{
    if origin_key(origin).len() == 0 {
        assert(entries[i] == autofill_selection(entries, origin)[i]);
    } else {
        let matched = entries.filter(|e: DecryptedPasswordEntry| entry_matches_origin(origin, e));
        if matched.len() > 0 {
            lemma_filter_subset(entries, |e: DecryptedPasswordEntry| entry_matches_origin(origin, e), i);
        } else {
            lemma_filter_subset(entries, |e: DecryptedPasswordEntry| !is_blank(e.website_url@), i);
        }
    }
}

/// For a non-blank origin, every returned entry matches it, except in the browser
/// fallback, where every returned entry has a website.
pub proof fn lemma_selection_is_relevant(
    entries: Seq<DecryptedPasswordEntry>,
    origin: Seq<char>,
    i: int,
)
    requires
        origin_key(origin).len() > 0,
        0 <= i < autofill_selection(entries, origin).len(),
    ensures
        entry_matches_origin(origin, autofill_selection(entries, origin)[i]) || (is_browser_key(
            origin_key(origin),
        ) && !is_blank(autofill_selection(entries, origin)[i].website_url@)),
{
    let matched = entries.filter(|e: DecryptedPasswordEntry| entry_matches_origin(origin, e));
    if matched.len() > 0 {
        lemma_filter_subset(entries, |e: DecryptedPasswordEntry| entry_matches_origin(origin, e), i);
    } else {
        lemma_filter_subset(entries, |e: DecryptedPasswordEntry| !is_blank(e.website_url@), i);
    }
}

/// Every entry that matches a non-blank origin is returned.
pub proof fn lemma_matching_entry_is_returned(
    entries: Seq<DecryptedPasswordEntry>,
    origin: Seq<char>,
    i: int,
)
    requires
        origin_key(origin).len() > 0,
        0 <= i < entries.len(),
        entry_matches_origin(origin, entries[i]),
    ensures
        autofill_selection(entries, origin).contains(entries[i]),
{
    let p = |e: DecryptedPasswordEntry| entry_matches_origin(origin, e);
    entries.lemma_filter_contains(p, i);
    assert(entries.filter(p).len() > 0);
}

/// A needle without a dot matches only a whole dot-separated part of the host, so
/// `amazon` never matches `evil-amazon.com`.
pub proof fn lemma_single_label_is_whole_part(needle: Seq<char>, website: Seq<char>)
    requires
        hosts_match(needle, website),
        !has_char(normalized_host(needle), '.'),
    ensures
        is_piece(normalized_host(website), '.', normalized_host(needle)),
{
}

/// A dotted needle matches only the same host, a subdomain of it, or its parent.
pub proof fn lemma_dotted_needle_is_related_host(needle: Seq<char>, website: Seq<char>)
    requires
        hosts_match(needle, website),
        has_char(normalized_host(needle), '.'),
    ensures
        normalized_host(website) == normalized_host(needle) || ends_with(
            normalized_host(website),
            seq!['.'] + normalized_host(needle),
        ) || ends_with(normalized_host(needle), seq!['.'] + normalized_host(website)),
{
}

/// For a package name, no generic segment (`com`, `org`, `net`, `io`, `app`,
/// `android`, `mobile`) is ever a needle: besides the key itself, every needle is a
/// dot-separated part of the key of at least three UTF-8 bytes and none of those words.
pub proof fn lemma_package_needles_skip_generic(t: Seq<char>, c: Seq<char>)
    requires
        is_package_key(t),
        is_key_needle(t, c),
        c != t,
    ensures
        c != "com"@,
        c != "org"@,
        c != "net"@,
        c != "io"@,
        c != "app"@,
        c != "android"@,
        c != "mobile"@,
        is_piece(t, '.', c),
        encode_utf8(c).len() >= 3,
{
}

/// For a package name, every dot-separated part of at least three UTF-8 bytes that is
/// none of the generic words is a needle.
pub proof fn lemma_package_parts_are_needles(t: Seq<char>, c: Seq<char>)
    requires
        is_package_key(t),
        is_piece(t, '.', c),
        encode_utf8(c).len() >= 3,
        c != "com"@,
        c != "org"@,
        c != "net"@,
        c != "io"@,
        c != "app"@,
        c != "android"@,
        c != "mobile"@,
    ensures
        is_key_needle(t, c),
{
    assert(t.len() > 0) by {
        let k = choose|k: int| 0 <= k < t.len() && t[k] == '.';
    }
}

/// A needle without a dot matches every host of which it is a whole dot-separated
/// part: if the normalised needle equals the normalised host's characters `i..j`, with
/// a dot (or the host's start) before `i` and a dot (or the host's end) at `j`, the
/// two match, wherever in the host that part stands.
pub proof fn lemma_single_label_matches_any_part(needle: Seq<char>, website: Seq<char>, i: int, j: int)
    requires
        normalized_host(needle).len() > 0,
        !has_char(normalized_host(needle), '.'),
        0 <= i <= j <= normalized_host(website).len(),
        i == 0 || normalized_host(website)[i - 1] == '.',
        j == normalized_host(website).len() || normalized_host(website)[j] == '.',
        normalized_host(website).subrange(i, j) == normalized_host(needle),
    ensures
        hosts_match(needle, website),
{
    let n = normalized_host(needle);
    let w = normalized_host(website);
    crate::text::lemma_next_char_bounds(w, '.', i);
    let e = next_char(w, '.', i);
    assert forall|k: int| i <= k < j implies w[k] != '.' by {
        assert(w[k] == n[k - i]);
        if w[k] == '.' {
            assert(has_char(n, '.'));
        }
    }
    if e < j {
        assert(w[e] == '.');
    }
    if j < w.len() && e > j {
        assert(w[j] != '.');
    }
    assert(e == j);
    assert(piece_start(w, '.', i));
    assert(n == w.subrange(i, next_char(w, '.', i)));
    assert(is_piece(w, '.', n));
}

} // verus!
