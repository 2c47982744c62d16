//! Vault-wide security posture metrics derived from decrypted entries.
//!
//! A password is weak when its estimated entropy is below 60 bits, when its
//! lowercase form contains `123`, `password` or `admin`, or when it repeats one
//! character three times in a row. The entropy estimate is `length * log2(pool)`,
//! where the pool is inferred from the character classes present; this module
//! decides `length * log2(pool) < 60` exactly, as `pool^length < 2^60`.
use vstd::prelude::*;

use crate::generator::{digit_pool, lower_pool, special_pool, upper_pool};
use crate::text::{chars_of, contains, contains_chars, lowercase_chars, lowercase_of, string_from_chars};
use crate::vault::DecryptedPasswordEntry;

verus! {

/// Aggregate security findings for a decrypted vault snapshot.
#[derive(Debug, Clone, PartialEq, Eq, Structural)]
pub struct VaultSecurityReport {
    /// Passwords whose estimated entropy is below 60 bits or that show a weak pattern.
    pub weak_passwords_count: u32,
    /// Entries whose password value is shared by more than one account.
    pub reused_passwords_count: u32,
    /// Composite score from 0 (critical) to 100 (excellent).
    pub total_score: u32,
}

/// 2^60, the weak-entropy threshold as a power of two.
pub open spec fn entropy_threshold() -> int {
    0x1000_0000_0000_0000
}

/// `b` raised to the power `e`.
pub open spec fn pow(b: int, e: nat) -> int
    decreases e,
{
    if e == 0 {
        1
    } else {
        b * pow(b, (e - 1) as nat)
    }
}

/// `c` is outside ASCII.
pub open spec fn non_ascii(c: char) -> bool {
    c as u32 >= 128
}

/// Number of distinct non-ASCII characters of `s`.
pub open spec fn distinct_non_ascii(s: Seq<char>) -> nat
    decreases s.len(),
{
    if s.len() == 0 {
        0
    } else {
        let init = s.drop_last();
        distinct_non_ascii(init) + if non_ascii(s.last()) && !init.contains(s.last()) {
            1nat
        } else {
            0nat
        }
    }
}

/// `s` has a character of `pool`.
pub open spec fn uses_pool(s: Seq<char>, pool: Seq<char>) -> bool {
    exists|i: int| 0 <= i < s.len() && pool.contains(#[trigger] s[i])
}

/// The character pool inferred from the classes present in `s` (at least 1).
pub open spec fn pool_size(s: Seq<char>) -> nat {
    let p = (if uses_pool(s, lower_pool()) { 26nat } else { 0nat }) + (if uses_pool(
        s,
        upper_pool(),
    ) {
        26nat
    } else {
        0nat
    }) + (if uses_pool(s, digit_pool()) { 10nat } else { 0nat }) + (if uses_pool(
        s,
        special_pool(),
    ) {
        26nat
    } else {
        0nat
    }) + distinct_non_ascii(s);
    if p == 0 {
        1
    } else {
        p
    }
}

/// Estimated entropy `len * log2(pool_size)` is below 60 bits.
pub open spec fn low_entropy(s: Seq<char>) -> bool {
    s.len() == 0 || pow(pool_size(s) as int, s.len()) < entropy_threshold()
}

/// `lower` contains one of the weak substrings `123`, `password`, `admin`.
pub open spec fn has_weak_pattern(lower: Seq<char>) -> bool {
    contains(lower, "123"@) || contains(lower, "password"@) || contains(lower, "admin"@)
}

/// The lowercase form of `s` contains one of the weak substrings.
pub open spec fn has_weak_substring(s: Seq<char>) -> bool {
    has_weak_pattern(lowercase_of(s))
}

/// `s` repeats one character at least three times in a row.
pub open spec fn has_triple(s: Seq<char>) -> bool {
    exists|i: int| 0 <= i && i + 2 < s.len() && s[i] == s[i + 1] && #[trigger] s[i + 2] == s[i]
}

/// The weakness rule of the audit.
pub open spec fn is_weak(s: Seq<char>) -> bool {
    low_entropy(s) || has_weak_substring(s) || has_triple(s)
}

proof fn lemma_pow_ge_one(b: int, e: nat)
    requires
        b >= 1,
    ensures
        pow(b, e) >= 1,
    decreases e,
{
    if e > 0 {
        lemma_pow_ge_one(b, (e - 1) as nat);
        let p = pow(b, (e - 1) as nat);
        assert(b * p >= 1) by (nonlinear_arith)
            requires
                b >= 1,
                p >= 1,
        ;
    }
}

proof fn lemma_pow_mono(b: int, e1: nat, e2: nat)
    requires
        b >= 1,
        e1 <= e2,
    ensures
        pow(b, e1) <= pow(b, e2),
    decreases e2,
{
    if e1 < e2 {
        lemma_pow_mono(b, e1, (e2 - 1) as nat);
        lemma_pow_ge_one(b, (e2 - 1) as nat);
        let p = pow(b, (e2 - 1) as nat);
        assert(p <= b * p) by (nonlinear_arith)
            requires
                b >= 1,
                p >= 1,
        ;
    }
}

/// Whether `pool^len < 2^60`.
fn below_entropy_threshold(pool: u32, len: usize) -> (r: bool)
    requires
        pool >= 1,
    ensures
        r == (pow(pool as int, len as nat) < entropy_threshold()),
{
    let threshold: u128 = 0x1000_0000_0000_0000;
    let mut prod: u128 = 1;
    let mut k: usize = 0;
    while k < len
        invariant
            pool >= 1,
            k <= len,
            prod == pow(pool as int, k as nat),
            prod < threshold,
            threshold == entropy_threshold(),
        decreases len - k,
    {
        assert(prod * (pool as u128) < 0x1_0000_0000_0000_0000_0000_0000) by (nonlinear_arith)
            requires
                prod < 0x1000_0000_0000_0000,
                pool <= 0xffff_ffff,
        ;
        let ghost before = prod;
        prod = prod * (pool as u128);
        k = k + 1;
        assert(pow(pool as int, k as nat) == pool * pow(pool as int, (k - 1) as nat));
        assert(prod == pow(pool as int, k as nat)) by (nonlinear_arith)
            requires
                prod == before * pool,
                before == pow(pool as int, (k - 1) as nat),
                pow(pool as int, k as nat) == pool * pow(pool as int, (k - 1) as nat),
        ;
        if prod >= threshold {
            proof {
                lemma_pow_mono(pool as int, k as nat, len as nat);
            }
            return false;
        }
    }
    true
}

/// Whether some character of `s` belongs to `pool`.
fn uses_pool_exec(s: &Vec<char>, pool: &Vec<char>) -> (r: bool)
    ensures
        r == uses_pool(s@, pool@),
{
    let mut i: usize = 0;
    while i < s.len()
        invariant
            i <= s.len(),
            forall|j: int| 0 <= j < i ==> !pool@.contains(#[trigger] s@[j]),
        decreases s.len() - i,
    {
        let mut k: usize = 0;
        let mut found = false;
        while k < pool.len()
            invariant
                i < s.len(),
                k <= pool.len(),
                found == (exists|m: int| 0 <= m < k && pool@[m] == s@[i as int]),
            decreases pool.len() - k,
        {
            if pool[k] == s[i] {
                found = true;
            }
            k = k + 1;
        }
        if found {
            return true;
        }
        i = i + 1;
    }
    false
}

/// Number of distinct non-ASCII characters of `s`.
fn count_distinct_non_ascii(s: &Vec<char>) -> (r: u32)
    ensures
        r == distinct_non_ascii(s@),
        r <= 0x110000,
{
    let mut count: u32 = 0;
    let mut i: usize = 0;
    while i < s.len()
        invariant
            i <= s.len(),
            count == distinct_non_ascii(s@.take(i as int)),
        decreases s.len() - i,
    {
        proof {
            lemma_distinct_bound(s@.take(i as int));
        }
        let c = s[i];
        let mut seen = false;
        let mut j: usize = 0;
        while j < i
            invariant
                i < s.len(),
                j <= i,
                seen == (exists|m: int| 0 <= m < j && s@[m] == c),
            decreases i - j,
        {
            if s[j] == c {
                seen = true;
            }
            j = j + 1;
        }
        proof {
            let t = s@.take(i + 1);
            assert(t.drop_last() =~= s@.take(i as int));
            assert(t.last() == c);
            if seen {
                let m = choose|m: int| 0 <= m < i && s@[m] == c;
                assert(s@.take(i as int)[m] == c);
            }
            if s@.take(i as int).contains(c) {
                let m = choose|m: int| 0 <= m < i && s@.take(i as int)[m] == c;
                assert(s@[m] == c);
            }
        }
        if (c as u32) >= 128 && !seen {
            count = count + 1;
        }
        i = i + 1;
    }
    assert(s@.take(s.len() as int) =~= s@);
    proof {
        lemma_distinct_bound(s@);
    }
    count
}

/// The distinct non-ASCII characters of `s`.
spec fn non_ascii_set(s: Seq<char>) -> Set<char> {
    s.to_set().filter(|c: char| non_ascii(c))
}

proof fn lemma_distinct_is_set_len(s: Seq<char>)
    ensures
        non_ascii_set(s).finite(),
        distinct_non_ascii(s) == non_ascii_set(s).len(),
    decreases s.len(),
{
    if s.len() == 0 {
        assert(non_ascii_set(s) =~= Set::<char>::empty());
    } else {
        let init = s.drop_last();
        let c = s.last();
        lemma_distinct_is_set_len(init);
        assert forall|x: char| s.contains(x) <==> (init.contains(x) || x == c) by {
            if s.contains(x) {
                let i = choose|i: int| 0 <= i < s.len() && s[i] == x;
                if i < s.len() - 1 {
                    assert(init[i] == x);
                }
            }
            if init.contains(x) {
                let i = choose|i: int| 0 <= i < init.len() && init[i] == x;
                assert(s[i] == x);
            }
            if x == c {
                assert(s[s.len() - 1] == x);
            }
        }
        if non_ascii(c) {
            assert(non_ascii_set(s) =~= non_ascii_set(init).insert(c));
            if init.contains(c) {
                assert(non_ascii_set(init).contains(c));
                assert(non_ascii_set(init).insert(c) =~= non_ascii_set(init));
            }
        } else {
            assert(non_ascii_set(s) =~= non_ascii_set(init));
        }
    }
}

/// A string has at most 0x110000 distinct characters outside ASCII (there are no
/// more `char` values).
proof fn lemma_distinct_bound(s: Seq<char>)
    ensures
        distinct_non_ascii(s) <= 0x110000,
{
    lemma_distinct_is_set_len(s);
    let x = non_ascii_set(s);
    let f = |c: char| (c as u32) as int;
    let y = x.map(f);
    let range = vstd::set_lib::set_int_range(0, 0x110000);
    assert(vstd::relations::injective_on(f, x)) by {
        assert forall|a: char, b: char| x.contains(a) && x.contains(b) && #[trigger] f(a) == #[trigger] f(b)
            implies a == b by {
            vstd::utf8::char_u32_cast(a, a as u32);
            vstd::utf8::char_u32_cast(b, b as u32);
        }
    }
    vstd::set_lib::lemma_map_size(x, y, f);
    vstd::set_lib::lemma_int_range(0, 0x110000);
    assert(y.subset_of(range)) by {
        assert forall|v: int| y.contains(v) implies range.contains(v) by {
            let a = choose|a: char| x.contains(a) && f(a) == v;
            vstd::utf8::char_is_scalar(a);
        }
    }
    vstd::set_lib::lemma_len_subset(y, range);
}

/// The inferred character pool of `password` (at least 1).
pub fn inferred_pool_size(password: &str) -> (r: u32)
    ensures
        r == pool_size(password@),
        r >= 1,
{
    let s = chars_of(password);
    let lower = crate::generator::lower_chars();
    let upper = crate::generator::upper_chars();
    let digits = crate::generator::digit_chars();
    let special = crate::generator::special_chars();
    let mut pool: u32 = 0;
    if uses_pool_exec(&s, &lower) {
        pool = pool + 26;
    }
    if uses_pool_exec(&s, &upper) {
        pool = pool + 26;
    }
    if uses_pool_exec(&s, &digits) {
        pool = pool + 10;
    }
    if uses_pool_exec(&s, &special) {
        pool = pool + 26;
    }
    let distinct = count_distinct_non_ascii(&s);
    pool = pool + distinct;
    if pool == 0 {
        1
    } else {
        pool
    }
}

/// Whether the estimated entropy of `password` is below 60 bits.
pub fn low_entropy_exec(password: &str) -> (r: bool)
    ensures
        r == low_entropy(password@),
{
    let s = chars_of(password);
    if s.len() == 0 {
        return true;
    }
    let pool = inferred_pool_size(password);
    below_entropy_threshold(pool, s.len())
}

/// Whether the already lowercased `lower` contains `123`, `password` or `admin`.
pub fn weak_pattern_in(lower: &str) -> (r: bool)
    ensures
        r == has_weak_pattern(lower@),
{
    let l = chars_of(lower);
    let a = chars_of("123");
    let b = chars_of("password");
    let c = chars_of("admin");
    contains_chars(&l, &a) || contains_chars(&l, &b) || contains_chars(&l, &c)
}

/// Whether the lowercase form of `password` contains `123`, `password` or `admin`.
pub fn contains_weak_substring(password: &str) -> (r: bool)
    ensures
        r == has_weak_substring(password@),
{
    let lower = string_from_chars(&lowercase_chars(password));
    weak_pattern_in(lower.as_str())
}

/// Whether `password` has three or more identical consecutive characters.
pub fn has_consecutive_run(password: &str) -> (r: bool)
    ensures
        r == has_triple(password@),
{
    let s = chars_of(password);
    if s.len() < 3 {
        return false;
    }
    let mut i: usize = 0;
    while i + 2 < s.len()
        invariant
            s@ == password@,
            s.len() >= 3,
            i + 2 <= s.len(),
            forall|j: int| 0 <= j < i ==> !(s@[j] == s@[j + 1] && #[trigger] s@[j + 2] == s@[j]),
        decreases s.len() - i,
    {
        if s[i] == s[i + 1] && s[i + 2] == s[i] {
            return true;
        }
        i = i + 1;
    }
    false
}

/// Flags low-entropy passwords and those with obvious human patterns.
pub fn is_weak_password(password: &str) -> (r: bool)
    ensures
        r == is_weak(password@),
{
    if low_entropy_exec(password) {
        return true;
    }
    if contains_weak_substring(password) || has_consecutive_run(password) {
        return true;
    }
    false
}

/// The password of entry `i` is also the password of another entry.
pub open spec fn is_shared(pws: Seq<Seq<char>>, i: int) -> bool {
    exists|j: int| 0 <= j < pws.len() && j != i && pws[j] == #[trigger] pws[i]
}

/// Number of the first `k` entries that satisfy `p`.
pub open spec fn count_upto(k: int, p: spec_fn(int) -> bool) -> nat
    decreases k,
{
    if k <= 0 {
        0
    } else {
        count_upto(k - 1, p) + if p(k - 1) {
            1nat
        } else {
            0nat
        }
    }
}

/// The passwords of `entries`.
pub open spec fn passwords_of(entries: Seq<DecryptedPasswordEntry>) -> Seq<Seq<char>> {
    entries.map_values(|e: DecryptedPasswordEntry| e.password@)
}

/// `n`, or `u32::MAX` when it does not fit: the counts saturate.
pub open spec fn capped(n: nat) -> nat {
    if n > u32::MAX {
        u32::MAX as nat
    } else {
        n
    }
}

/// Number of entries whose password is weak.
pub open spec fn weak_count(entries: Seq<DecryptedPasswordEntry>) -> nat {
    count_upto(entries.len() as int, |i: int| is_weak(entries[i].password@))
}

/// Number of entries whose password another entry shares.
pub open spec fn reused_count(entries: Seq<DecryptedPasswordEntry>) -> nat {
    count_upto(entries.len() as int, |i: int| is_shared(passwords_of(entries), i))
}

/// Whether another entry than `i` has the same password.
fn password_shared(entries: &Vec<DecryptedPasswordEntry>, i: usize) -> (r: bool)
    requires
        i < entries.len(),
    ensures
        r == is_shared(passwords_of(entries@), i as int),
{
    let ghost pws = passwords_of(entries@);
    let mut j: usize = 0;
    while j < entries.len()
        invariant
            i < entries.len(),
            pws == passwords_of(entries@),
            j <= entries.len(),
            forall|m: int| 0 <= m < j && m != i ==> pws[m] != pws[i as int],
        decreases entries.len() - j,
    {
        if j != i && entries[j].password == entries[i].password {
            assert(pws[j as int] == pws[i as int]);
            return true;
        }
        j = j + 1;
    }
    false
}

/// Counts the entries with a weak password and those whose password another entry shares.
pub fn count_weak_and_reused(entries: &Vec<DecryptedPasswordEntry>) -> (r: (u32, u32))
    ensures
        r.0 == capped(weak_count(entries@)),
        r.1 == capped(reused_count(entries@)),
{
    let ghost weak_p = |i: int| is_weak(entries@[i].password@);
    let ghost shared_p = |i: int| is_shared(passwords_of(entries@), i);
    let mut weak: u32 = 0;
    let mut reused: u32 = 0;
    let mut i: usize = 0;
    while i < entries.len()
        invariant
            i <= entries.len(),
            weak == capped(count_upto(i as int, weak_p)),
            reused == capped(count_upto(i as int, shared_p)),
            weak_p == (|i: int| is_weak(entries@[i].password@)),
            shared_p == (|i: int| is_shared(passwords_of(entries@), i)),
        decreases entries.len() - i,
    {
        if is_weak_password(entries[i].password.as_str()) && weak < u32::MAX {
            weak = weak + 1;
        }
        if password_shared(entries, i) && reused < u32::MAX {
            reused = reused + 1;
        }
        i = i + 1;
    }
    (weak, reused)
}

/// An entry counts as reused exactly when another entry holds the identical
/// password, character for character: no case folding or other normalisation.
pub proof fn lemma_reuse_is_identity(entries: Seq<DecryptedPasswordEntry>, i: int)
    requires
        0 <= i < entries.len(),
    ensures
        is_shared(passwords_of(entries), i) <==> exists|j: int|
            0 <= j < entries.len() && j != i && #[trigger] entries[j].password@
                == entries[i].password@,
{
    let pws = passwords_of(entries);
    if is_shared(pws, i) {
        let j = choose|j: int| 0 <= j < pws.len() && j != i && pws[j] == #[trigger] pws[i];
        assert(entries[j].password@ == entries[i].password@);
    }
    if exists|j: int| 0 <= j < entries.len() && j != i && #[trigger] entries[j].password@
        == entries[i].password@ {
        let j = choose|j: int| 0 <= j < entries.len() && j != i && #[trigger] entries[j].password@
            == entries[i].password@;
        assert(pws[j] == pws[i]);
    }
}

proof fn lemma_count_upto_none(k: int, p: spec_fn(int) -> bool)
    requires
        forall|m: int| 0 <= m < k ==> !#[trigger] p(m),
    ensures
        count_upto(k, p) == 0,
    decreases k,
{
    if k > 0 {
        lemma_count_upto_none(k - 1, p);
    }
}

proof fn lemma_count_upto_all(k: int, p: spec_fn(int) -> bool)
    requires
        k >= 0,
        forall|m: int| 0 <= m < k ==> #[trigger] p(m),
    ensures
        count_upto(k, p) == k,
    decreases k,
{
    if k > 0 {
        lemma_count_upto_all(k - 1, p);
    }
}

/// A vault whose passwords are pairwise different strings has no reused password
/// (passwords that differ only in letter case are different).
pub proof fn lemma_distinct_passwords_not_reused(entries: Seq<DecryptedPasswordEntry>)
    requires
        forall|i: int, j: int|
            0 <= i < entries.len() && 0 <= j < entries.len() && i != j ==> #[trigger] entries[i].password@
                != #[trigger] entries[j].password@,
    ensures
        reused_count(entries) == 0,
{
    let p = |i: int| is_shared(passwords_of(entries), i);
    assert forall|m: int| 0 <= m < entries.len() implies !#[trigger] p(m) by {
        lemma_reuse_is_identity(entries, m);
    }
    lemma_count_upto_none(entries.len() as int, p);
}

/// A vault in which every password equals some other entry's counts every entry as
/// reused.
pub proof fn lemma_all_shared_all_reused(entries: Seq<DecryptedPasswordEntry>)
    requires
        forall|i: int|
            #![trigger entries[i]]
            0 <= i < entries.len() ==> exists|j: int|
                0 <= j < entries.len() && j != i && #[trigger] entries[j].password@
                    == entries[i].password@,
    ensures
        reused_count(entries) == entries.len(),
{
    let p = |i: int| is_shared(passwords_of(entries), i);
    assert forall|m: int| 0 <= m < entries.len() implies #[trigger] p(m) by {
        let e = entries[m];
        lemma_reuse_is_identity(entries, m);
    }
    lemma_count_upto_all(entries.len() as int, p);
}

/// The inferred pool adds each character class in full as soon as one of its
/// characters occurs: 26 for lowercase, 26 for uppercase, 10 for digits and 26 for
/// the generator's special characters (all of `special_pool()`), plus each distinct
/// non-ASCII character; a string with none of these gets 1.
pub proof fn lemma_pool_counts_classes(s: Seq<char>)
    ensures
        ({
            let sum = (if exists|i: int| 0 <= i < s.len() && lower_pool().contains(#[trigger] s[i]) {
                26int
            } else {
                0int
            }) + (if exists|i: int| 0 <= i < s.len() && upper_pool().contains(#[trigger] s[i]) {
                26int
            } else {
                0int
            }) + (if exists|i: int| 0 <= i < s.len() && digit_pool().contains(#[trigger] s[i]) {
                10int
            } else {
                0int
            }) + (if exists|i: int| 0 <= i < s.len() && special_pool().contains(#[trigger] s[i]) {
                26int
            } else {
                0int
            }) + distinct_non_ascii(s);
            pool_size(s) == if sum == 0 {
                1int
            } else {
                sum
            }
        }),
{
}

/// A password with any character of the special class has at least those 26
/// characters in its pool, whatever else it holds.
pub proof fn lemma_special_counts_whole_class(s: Seq<char>, i: int)
    requires
        0 <= i < s.len(),
        special_pool().contains(s[i]),
    ensures
        pool_size(s) >= 26,
{
    lemma_pool_counts_classes(s);
}

} // verus!
