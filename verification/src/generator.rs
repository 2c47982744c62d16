//! Password generation from the enabled character classes with a CSPRNG seeded from the OS.
use vstd::prelude::*;

use crate::crypto::random_seed;
use crate::error::ArkaError;
use crate::text::string_from_chars;
use rand::{RngExt, SeedableRng};

verus! {

/// Uppercase ASCII letters.
pub open spec fn upper_pool() -> Seq<char> {
    seq![
        'A', 'B', 'C', 'D', 'E', 'F', 'G', 'H', 'I', 'J', 'K', 'L', 'M', 'N', 'O', 'P', 'Q', 'R',
        'S', 'T', 'U', 'V', 'W', 'X', 'Y', 'Z',
    ]
}

/// Lowercase ASCII letters.
pub open spec fn lower_pool() -> Seq<char> {
    seq![
        'a', 'b', 'c', 'd', 'e', 'f', 'g', 'h', 'i', 'j', 'k', 'l', 'm', 'n', 'o', 'p', 'q', 'r',
        's', 't', 'u', 'v', 'w', 'x', 'y', 'z',
    ]
}

/// ASCII digits.
pub open spec fn digit_pool() -> Seq<char> {
    seq!['0', '1', '2', '3', '4', '5', '6', '7', '8', '9']
}

/// The special characters a generated password may use.
pub open spec fn special_pool() -> Seq<char> {
    seq![
        '!', '@', '#', '$', '%', '^', '&', '*', '(', ')', '-', '_', '=', '+', '[', ']', '{', '}',
        '|', ';', ':', ',', '.', '<', '>', '?',
    ]
}

/// The characters of `upper_pool`.
pub fn upper_chars() -> (v: Vec<char>)
    ensures
        v@ == upper_pool(),
{
    vec![
        'A', 'B', 'C', 'D', 'E', 'F', 'G', 'H', 'I', 'J', 'K', 'L', 'M', 'N', 'O', 'P', 'Q', 'R',
        'S', 'T', 'U', 'V', 'W', 'X', 'Y', 'Z',
    ]
}

/// The characters of `lower_pool`.
pub fn lower_chars() -> (v: Vec<char>)
    ensures
        v@ == lower_pool(),
{
    vec![
        'a', 'b', 'c', 'd', 'e', 'f', 'g', 'h', 'i', 'j', 'k', 'l', 'm', 'n', 'o', 'p', 'q', 'r',
        's', 't', 'u', 'v', 'w', 'x', 'y', 'z',
    ]
}

/// The characters of `digit_pool`.
pub fn digit_chars() -> (v: Vec<char>)
    ensures
        v@ == digit_pool(),
{
    vec!['0', '1', '2', '3', '4', '5', '6', '7', '8', '9']
}

/// The characters of `special_pool`.
pub fn special_chars() -> (v: Vec<char>)
    ensures
        v@ == special_pool(),
{
    vec![
        '!', '@', '#', '$', '%', '^', '&', '*', '(', ')', '-', '_', '=', '+', '[', ']', '{', '}',
        '|', ';', ':', ',', '.', '<', '>', '?',
    ]
}

/// The character classes are exactly the ASCII uppercase letters, lowercase
/// letters, digits and the 26 special characters `!@#$%^&*()-_=+[]{}|;:,.<>?`.
pub proof fn lemma_pools_are_the_classes()
    ensures
        upper_pool() == "ABCDEFGHIJKLMNOPQRSTUVWXYZ"@,
        lower_pool() == "abcdefghijklmnopqrstuvwxyz"@,
        digit_pool() == "0123456789"@,
        special_pool() == "!@#$%^&*()-_=+[]{}|;:,.<>?"@,
{
    reveal_strlit("ABCDEFGHIJKLMNOPQRSTUVWXYZ");
    reveal_strlit("abcdefghijklmnopqrstuvwxyz");
    reveal_strlit("0123456789");
    reveal_strlit("!@#$%^&*()-_=+[]{}|;:,.<>?");
    assert(upper_pool() =~= "ABCDEFGHIJKLMNOPQRSTUVWXYZ"@);
    assert(lower_pool() =~= "abcdefghijklmnopqrstuvwxyz"@);
    assert(digit_pool() =~= "0123456789"@);
    assert(special_pool() =~= "!@#$%^&*()-_=+[]{}|;:,.<>?"@);
}

/// Options for [`generate_password`].
#[derive(Debug, Clone, PartialEq, Eq, Structural)]
pub struct GeneratorOptions {
    pub length: u32,
    pub use_uppercase: bool,
    pub use_lowercase: bool,
    pub use_numbers: bool,
    pub use_special: bool,
}

/// The enabled character pools, in the order uppercase, lowercase, digits, special.
pub open spec fn enabled_pools(o: GeneratorOptions) -> Seq<Seq<char>> {
    (if o.use_uppercase { seq![upper_pool()] } else { seq![] }) + (if o.use_lowercase {
        seq![lower_pool()]
    } else {
        seq![]
    }) + (if o.use_numbers { seq![digit_pool()] } else { seq![] }) + (if o.use_special {
        seq![special_pool()]
    } else {
        seq![]
    })
}

/// The contents of each pool vector.
pub open spec fn pool_views(p: Seq<Vec<char>>) -> Seq<Seq<char>> {
    p.map_values(|v: Vec<char>| v@)
}

proof fn lemma_enabled_pools_nonempty(o: GeneratorOptions)
    ensures
        enabled_pools(o).len() <= 4,
        forall|k: int| 0 <= k < enabled_pools(o).len() ==> #[trigger] enabled_pools(o)[k].len() > 0,
{
    let a: Seq<Seq<char>> = if o.use_uppercase { seq![upper_pool()] } else { seq![] };
    let b: Seq<Seq<char>> = if o.use_lowercase { seq![lower_pool()] } else { seq![] };
    let c: Seq<Seq<char>> = if o.use_numbers { seq![digit_pool()] } else { seq![] };
    let d: Seq<Seq<char>> = if o.use_special { seq![special_pool()] } else { seq![] };
    assert(upper_pool().len() > 0 && lower_pool().len() > 0 && digit_pool().len() > 0
        && special_pool().len() > 0);
    assert forall|k: int| 0 <= k < enabled_pools(o).len() implies #[trigger] enabled_pools(o)[k].len() > 0 by {
        let e = enabled_pools(o);
        assert(e == a + b + c + d);
        if k < a.len() {
            assert(e[k] == a[k]);
        } else if k < a.len() + b.len() {
            assert(e[k] == b[k - a.len()]);
        } else if k < a.len() + b.len() + c.len() {
            assert(e[k] == c[k - a.len() - b.len()]);
        } else {
            assert(e[k] == d[k - a.len() - b.len() - c.len()]);
        }
    }
}

/// The pools laid end to end.
pub open spec fn joined(pools: Seq<Seq<char>>) -> Seq<char>
    decreases pools.len(),
{
    if pools.len() == 0 {
        seq![]
    } else {
        joined(pools.drop_last()) + pools.last()
    }
}

/// `c` belongs to one of `pools`.
pub open spec fn in_some_pool(pools: Seq<Seq<char>>, c: char) -> bool {
    exists|k: int| 0 <= k < pools.len() && #[trigger] pools[k].contains(c)
}

/// Some character of `pw` belongs to `pool`.
pub open spec fn hits_pool(pw: Seq<char>, pool: Seq<char>) -> bool {
    exists|i: int| 0 <= i < pw.len() && pool.contains(#[trigger] pw[i])
}

/// Every pool contributes at least one character of `pw`.
pub open spec fn covers_pools(pw: Seq<char>, pools: Seq<Seq<char>>) -> bool {
    forall|k: int| 0 <= k < pools.len() ==> #[trigger] hits_pool(pw, pools[k])
}

/// A password of `o.length` characters, each from an enabled pool, with at least one
/// character from every enabled pool.
pub open spec fn is_valid_password(o: GeneratorOptions, pw: Seq<char>) -> bool {
    &&& pw.len() == o.length
    &&& forall|i: int| 0 <= i < pw.len() ==> in_some_pool(enabled_pools(o), #[trigger] pw[i])
    &&& covers_pools(pw, enabled_pools(o))
}

proof fn lemma_joined_contains(pools: Seq<Seq<char>>, c: char)
    ensures
        joined(pools).contains(c) <==> in_some_pool(pools, c),
    decreases pools.len(),
{
    if pools.len() > 0 {
        let init = pools.drop_last();
        lemma_joined_contains(init, c);
        let j = joined(pools);
        if j.contains(c) {
            let i = choose|i: int| 0 <= i < j.len() && j[i] == c;
            if i < joined(init).len() {
                assert(joined(init)[i] == c);
                let k = choose|k: int| 0 <= k < init.len() && #[trigger] init[k].contains(c);
                assert(pools[k] == init[k]);
            } else {
                assert(pools.last()[i - joined(init).len()] == c);
                assert(pools[pools.len() - 1].contains(c));
            }
        }
        if in_some_pool(pools, c) {
            let k = choose|k: int| 0 <= k < pools.len() && #[trigger] pools[k].contains(c);
            if k < pools.len() - 1 {
                assert(init[k] == pools[k]);
                assert(in_some_pool(init, c));
                let i = choose|i: int| 0 <= i < joined(init).len() && joined(init)[i] == c;
                assert(j[i] == c);
            } else {
                let i = choose|i: int| 0 <= i < pools.last().len() && pools.last()[i] == c;
                assert(j[joined(init).len() + i] == c);
            }
        }
    }
}

/// The enabled pools, or `EmptyField("charset")` when none is enabled.
fn active_pools(options: &GeneratorOptions) -> (r: Result<Vec<Vec<char>>, ArkaError>)
    ensures
        match r {
            Ok(p) => pool_views(p@) == enabled_pools(*options) && p@.len() > 0,
            Err(e) => enabled_pools(*options).len() == 0 && (e matches ArkaError::EmptyField {
                field,
            } && field@ == "charset"@),
        },
{
    let mut pools: Vec<Vec<char>> = Vec::new();
    let ghost o = *options;
    if options.use_uppercase {
        pools.push(upper_chars());
    }
    assert(pool_views(pools@) =~= (if o.use_uppercase { seq![upper_pool()] } else { seq![] }));
    if options.use_lowercase {
        pools.push(lower_chars());
    }
    assert(pool_views(pools@) =~= (if o.use_uppercase { seq![upper_pool()] } else { seq![] }) + (
    if o.use_lowercase {
        seq![lower_pool()]
    } else {
        seq![]
    }));
    if options.use_numbers {
        pools.push(digit_chars());
    }
    assert(pool_views(pools@) =~= (if o.use_uppercase { seq![upper_pool()] } else { seq![] }) + (
    if o.use_lowercase {
        seq![lower_pool()]
    } else {
        seq![]
    }) + (if o.use_numbers { seq![digit_pool()] } else { seq![] }));
    if options.use_special {
        pools.push(special_chars());
    }
    assert(pool_views(pools@) =~= enabled_pools(o));
    if pools.len() == 0 {
        return Err(ArkaError::empty_field("charset"));
    }
    Ok(pools)
}

/// All pools concatenated, in order.
fn combined_charset(pools: &Vec<Vec<char>>) -> (r: Vec<char>)
    ensures
        r@ == joined(pool_views(pools@)),
{
    let mut charset: Vec<char> = Vec::new();
    let mut k: usize = 0;
    while k < pools.len()
        invariant
            k <= pools.len(),
            charset@ == joined(pool_views(pools@).take(k as int)),
        decreases pools.len() - k,
    {
        let mut i: usize = 0;
        let ghost before = charset@;
        while i < pools[k].len()
            invariant
                k < pools.len(),
                i <= pools[k as int].len(),
                charset@ == before + pools[k as int]@.take(i as int),
            decreases pools[k as int].len() - i,
        {
            charset.push(pools[k][i]);
            i = i + 1;
            assert(charset@ =~= before + pools[k as int]@.take(i as int));
        }
        proof {
            let t = pool_views(pools@).take(k + 1);
            assert(t.drop_last() =~= pool_views(pools@).take(k as int));
            assert(pools[k as int]@.take(i as int) =~= pools[k as int]@);
        }
        k = k + 1;
    }
    assert(pool_views(pools@).take(pools.len() as int) =~= pool_views(pools@));
    charset
}

/// Declares `rand::rngs::StdRng` for use in signatures; its state stays opaque.
#[verifier::external_type_specification]
#[verifier::external_body]
pub struct ExStdRng(rand::rngs::StdRng);

/// Calls `SeedableRng::from_seed` for `StdRng`. Nothing is claimed of the generator.
#[verifier::external_body]
fn std_rng_from_seed(seed: [u8; 32]) -> (r: rand::rngs::StdRng) {
    rand::rngs::StdRng::from_seed(seed)
}

/// Calls `RngExt::random_range(0..=hi)`. Claimed: the value lies in `0..=hi`.
#[verifier::external_body]
fn random_up_to(rng: &mut rand::rngs::StdRng, hi: usize) -> (r: usize)
    ensures
        r <= hi,
{
    rng.random_range(0..=hi)
}

/// A generator seeded with 32 bytes from the OS CSPRNG.
fn crypto_rng() -> (r: Result<rand::rngs::StdRng, ArkaError>)
    ensures
        r matches Err(e) ==> e is RandomnessUnavailable,
{
    let seed = random_seed()?;
    Ok(std_rng_from_seed(seed))
}

/// Swapping two positions keeps every pool represented.
proof fn lemma_swap_covers(prev: Seq<char>, i: int, j: int, pools: Seq<Seq<char>>)
    requires
        covers_pools(prev, pools),
        0 <= i < prev.len(),
        0 <= j < prev.len(),
    ensures
        covers_pools(prev.update(i, prev[j]).update(j, prev[i]), pools),
{
    let next = prev.update(i, prev[j]).update(j, prev[i]);
    assert forall|k: int| 0 <= k < pools.len() implies #[trigger] hits_pool(next, pools[k]) by {
        assert(hits_pool(prev, pools[k]));
        let w = choose|x: int| 0 <= x < prev.len() && pools[k].contains(#[trigger] prev[x]);
        let v = if w == i { j } else if w == j { i } else { w };
        assert(next[v] == prev[w]);
        assert(0 <= v < next.len() && pools[k].contains(next[v]));
    }
}

/// Swapping two positions keeps the multiset of characters.
proof fn lemma_swap_multiset(prev: Seq<char>, i: int, j: int)
    requires
        0 <= i < prev.len(),
        0 <= j < prev.len(),
    ensures
        prev.update(i, prev[j]).update(j, prev[i]).to_multiset() == prev.to_multiset(),
{
    broadcast use vstd::seq_lib::to_multiset_update;
    let a = prev.update(i, prev[j]);
    assert(a[j] == prev[j]);
    assert(a.to_multiset() == prev.to_multiset().insert(prev[j]).remove(prev[i]));
    assert(a.update(j, prev[i]).to_multiset() == a.to_multiset().insert(prev[i]).remove(prev[j]));
    assert(prev.to_multiset().insert(prev[j]).remove(prev[i]).insert(prev[i]).remove(prev[j])
        =~= prev.to_multiset()) by {
        broadcast use vstd::seq_lib::to_multiset_contains;
        assert(prev.to_multiset().contains(prev[i]));
    }
}

/// The characters before shuffling: for each pool `k`, its `picks[k]`-th character;
/// then, for each `k`, the `fills[k]`-th character of the pools laid end to end.
pub open spec fn unshuffled(pools: Seq<Seq<char>>, picks: Seq<usize>, fills: Seq<usize>) -> Seq<char> {
    Seq::new(picks.len(), |k: int| pools[k][picks[k] as int]) + Seq::new(
        fills.len(),
        |k: int| joined(pools)[fills[k] as int],
    )
}

/// Fisher-Yates on the first `n` positions of `s`: for `i` from `n - 1` down to 1,
/// position `i` is swapped with position `swaps[i]`.
pub open spec fn shuffled(s: Seq<char>, swaps: Seq<usize>, n: nat) -> Seq<char>
    decreases n,
{
    if n <= 1 {
        s
    } else {
        let i = n - 1;
        let j = swaps[i] as int;
        shuffled(s.update(i, s[j]).update(j, s[i]), swaps, (n - 1) as nat)
    }
}

/// The password that the draws give: the picks and fills, then shuffled by `swaps`.
pub open spec fn assembled(
    pools: Seq<Seq<char>>,
    picks: Seq<usize>,
    fills: Seq<usize>,
    swaps: Seq<usize>,
) -> Seq<char> {
    shuffled(unshuffled(pools, picks, fills), swaps, (picks.len() + fills.len()) as nat)
}

/// The draws index within their ranges: one pick per pool inside that pool, fills
/// inside the joined pools, and one swap target `swaps[i] <= i` per position.
pub open spec fn draws_in_range(
    pools: Seq<Seq<char>>,
    picks: Seq<usize>,
    fills: Seq<usize>,
    swaps: Seq<usize>,
) -> bool {
    &&& picks.len() == pools.len()
    &&& forall|k: int| 0 <= k < picks.len() ==> #[trigger] picks[k] < pools[k].len()
    &&& forall|k: int| 0 <= k < fills.len() ==> #[trigger] fills[k] < joined(pools).len()
    &&& swaps.len() == picks.len() + fills.len()
    &&& forall|i: int| 0 <= i < swaps.len() ==> #[trigger] swaps[i] <= i
}

proof fn lemma_shuffled(s: Seq<char>, swaps: Seq<usize>, n: nat, pools: Seq<Seq<char>>)
    requires
        n <= s.len(),
        n <= swaps.len(),
        forall|i: int| 0 <= i < n ==> #[trigger] swaps[i] <= i,
    ensures
        shuffled(s, swaps, n).len() == s.len(),
        shuffled(s, swaps, n).to_multiset() == s.to_multiset(),
        covers_pools(s, pools) ==> covers_pools(shuffled(s, swaps, n), pools),
    decreases n,
{
    if n > 1 {
        let i = n - 1;
        let j = swaps[i] as int;
        assert(swaps[i] <= i);
        let t = s.update(i, s[j]).update(j, s[i]);
        lemma_swap_multiset(s, i, j);
        if covers_pools(s, pools) {
            lemma_swap_covers(s, i, j, pools);
        }
        lemma_shuffled(t, swaps, (n - 1) as nat, pools);
    }
}

proof fn lemma_assembled_valid(o: GeneratorOptions, picks: Seq<usize>, fills: Seq<usize>, swaps: Seq<usize>)
    requires
        draws_in_range(enabled_pools(o), picks, fills, swaps),
        picks.len() + fills.len() == o.length,
    ensures
        is_valid_password(o, assembled(enabled_pools(o), picks, fills, swaps)),
{
    broadcast use vstd::seq_lib::to_multiset_contains;
    let pools = enabled_pools(o);
    let u = unshuffled(pools, picks, fills);
    let n = (picks.len() + fills.len()) as nat;
    assert forall|i: int| 0 <= i < u.len() implies in_some_pool(pools, #[trigger] u[i]) by {
        if i < picks.len() {
            assert(u[i] == pools[i][picks[i] as int]);
            assert(picks[i] < pools[i].len());
            assert(pools[i].contains(u[i]));
        } else {
            let k = i - picks.len();
            assert(fills[k] < joined(pools).len());
            assert(u[i] == joined(pools)[fills[k] as int]);
            assert(joined(pools).contains(u[i]));
            lemma_joined_contains(pools, u[i]);
        }
    }
    assert(covers_pools(u, pools)) by {
        assert forall|k: int| 0 <= k < pools.len() implies #[trigger] hits_pool(u, pools[k]) by {
            assert(picks[k] < pools[k].len());
            assert(u[k] == pools[k][picks[k] as int]);
            assert(pools[k].contains(u[k]));
        }
    }
    lemma_shuffled(u, swaps, n, pools);
    let r = shuffled(u, swaps, n);
    assert forall|i: int| 0 <= i < r.len() implies in_some_pool(pools, #[trigger] r[i]) by {
        assert(r.contains(r[i]));
        assert(u.to_multiset().count(r[i]) > 0);
        assert(u.contains(r[i]));
        let m = choose|m: int| 0 <= m < u.len() && u[m] == r[i];
        assert(in_some_pool(pools, u[m]));
    }
}

/// Applies the Fisher-Yates swaps to `chars`: for `i` from the last position down to
/// 1, position `i` is swapped with position `swaps[i]`.
fn shuffle_chars(chars: &mut Vec<char>, swaps: &Vec<usize>)
    requires
        swaps.len() == old(chars).len(),
        forall|i: int| 0 <= i < swaps.len() ==> #[trigger] swaps@[i] <= i,
    ensures
        final(chars)@ == shuffled(old(chars)@, swaps@, old(chars)@.len()),
{
    let n = chars.len();
    let ghost orig = chars@;
    let mut i = n;
    while i > 1
        invariant
            chars.len() == n,
            swaps.len() == n,
            i <= n,
            forall|k: int| 0 <= k < swaps.len() ==> #[trigger] swaps@[k] <= k,
            shuffled(chars@, swaps@, i as nat) == shuffled(orig, swaps@, n as nat),
        decreases i,
    {
        i = i - 1;
        let j = swaps[i];
        assert(swaps@[i as int] <= i);
        let ghost prev = chars@;
        let a = chars[i];
        let b = chars[j];
        chars.set(i, b);
        chars.set(j, a);
        assert(chars@ =~= prev.update(i as int, prev[j as int]).update(j as int, prev[i as int]));
    }
}

/// The password that the draws `picks`, `fills` and `swaps` give over `pools`: the
/// `picks[k]`-th character of each pool, then the `fills[k]`-th characters of the
/// pools laid end to end, then shuffled by `swaps` (see [`assembled`]).
pub fn assemble_password(
    pools: &Vec<Vec<char>>,
    picks: &Vec<usize>,
    fills: &Vec<usize>,
    swaps: &Vec<usize>,
) -> (r: String)
    requires
        draws_in_range(pool_views(pools@), picks@, fills@, swaps@),
    ensures
        r@ == assembled(pool_views(pools@), picks@, fills@, swaps@),
{
    let ghost pv = pool_views(pools@);
    let combined = combined_charset(pools);
    let mut chars: Vec<char> = Vec::new();
    let mut k: usize = 0;
    while k < picks.len()
        invariant
            k <= picks.len(),
            pv == pool_views(pools@),
            draws_in_range(pv, picks@, fills@, swaps@),
            chars@ == Seq::new(k as nat, |m: int| pv[m][picks@[m] as int]),
        decreases picks.len() - k,
    {
        assert(picks@[k as int] < pv[k as int].len());
        assert(pv[k as int] == pools@[k as int]@);
        chars.push(pools[k][picks[k]]);
        assert(chars@ =~= Seq::new((k + 1) as nat, |m: int| pv[m][picks@[m] as int]));
        k = k + 1;
    }
    let ghost first = chars@;
    let mut f: usize = 0;
    while f < fills.len()
        invariant
            f <= fills.len(),
            combined@ == joined(pv),
            draws_in_range(pv, picks@, fills@, swaps@),
            chars@ == first + Seq::new(f as nat, |m: int| joined(pv)[fills@[m] as int]),
        decreases fills.len() - f,
    {
        assert(fills@[f as int] < joined(pv).len());
        chars.push(combined[fills[f]]);
        assert(chars@ =~= first + Seq::new((f + 1) as nat, |m: int| joined(pv)[fills@[m] as int]));
        f = f + 1;
    }
    assert(chars@ =~= unshuffled(pv, picks@, fills@));
    shuffle_chars(&mut chars, swaps);
    string_from_chars(&chars)
}

/// One random index into each pool, in pool order.
fn draw_picks(rng: &mut rand::rngs::StdRng, pools: &Vec<Vec<char>>) -> (r: Vec<usize>)
    requires
        forall|k: int| 0 <= k < pools.len() ==> pools@[k].len() > 0,
    ensures
        r@.len() == pools@.len(),
        forall|k: int| 0 <= k < r@.len() ==> #[trigger] r@[k] < pools@[k]@.len(),
{
    let mut picks: Vec<usize> = Vec::new();
    let mut k: usize = 0;
    while k < pools.len()
        invariant
            k <= pools.len(),
            picks@.len() == k,
            forall|j: int| 0 <= j < k ==> #[trigger] picks@[j] < pools@[j]@.len(),
            forall|j: int| 0 <= j < pools.len() ==> pools@[j].len() > 0,
        decreases pools.len() - k,
    {
        let idx = random_up_to(rng, pools[k].len() - 1);
        picks.push(idx);
        k = k + 1;
    }
    picks
}

/// `count` random indices below `range`.
fn draw_fills(rng: &mut rand::rngs::StdRng, range: usize, count: usize) -> (r: Vec<usize>)
    requires
        range > 0,
    ensures
        r@.len() == count,
        forall|k: int| 0 <= k < r@.len() ==> #[trigger] r@[k] < range,
{
    let mut fills: Vec<usize> = Vec::new();
    while fills.len() < count
        invariant
            range > 0,
            fills@.len() <= count,
            forall|j: int| 0 <= j < fills@.len() ==> #[trigger] fills@[j] < range,
        decreases count - fills@.len(),
    {
        let idx = random_up_to(rng, range - 1);
        fills.push(idx);
    }
    fills
}

/// The Fisher-Yates swap targets for `n` positions, drawn from the last position
/// down: `swaps[i]` is random in `0..=i` (and `swaps[0]` is 0).
fn draw_swaps(rng: &mut rand::rngs::StdRng, n: usize) -> (r: Vec<usize>)
    ensures
        r@.len() == n,
        forall|i: int| 0 <= i < r@.len() ==> #[trigger] r@[i] <= i,
{
    let mut swaps: Vec<usize> = Vec::new();
    while swaps.len() < n
        invariant
            swaps@.len() <= n,
            forall|k: int| 0 <= k < swaps@.len() ==> #[trigger] swaps@[k] == 0,
        decreases n - swaps@.len(),
    {
        swaps.push(0);
    }
    let mut i = n;
    while i > 1
        invariant
            swaps@.len() == n,
            i <= n,
            forall|k: int| 0 <= k < swaps@.len() ==> #[trigger] swaps@[k] <= k,
        decreases i,
    {
        i = i - 1;
        let j = random_up_to(rng, i);
        swaps.set(i, j);
    }
    swaps
}

/// Generates a random password from a CSPRNG seeded from the OS.
///
/// With no class enabled the error is `EmptyField("charset")`; a zero length, or one
/// shorter than the number of enabled classes, is `EmptyField("length")`. Otherwise
/// the only outcomes are `RandomnessUnavailable` and the password that
/// [`assemble_password`] builds from draws in range: exactly `length` characters, all
/// from the enabled classes, with at least one character from each enabled class.
pub fn generate_password(options: GeneratorOptions) -> (r: Result<String, ArkaError>)
    ensures
        enabled_pools(options).len() == 0 ==> (r matches Err(ArkaError::EmptyField { field })
            && field@ == "charset"@),
        enabled_pools(options).len() > 0 && options.length < enabled_pools(options).len() ==> (
        r matches Err(ArkaError::EmptyField { field }) && field@ == "length"@),
        enabled_pools(options).len() > 0 && options.length >= enabled_pools(options).len() ==> (
        r is Ok || r matches Err(ArkaError::RandomnessUnavailable)),
        r matches Ok(s) ==> is_valid_password(options, s@),
        r matches Ok(s) ==> exists|picks: Seq<usize>, fills: Seq<usize>, swaps: Seq<usize>|
            draws_in_range(enabled_pools(options), picks, fills, swaps) && picks.len()
                + fills.len() == options.length && s@ == #[trigger] assembled(
                enabled_pools(options),
                picks,
                fills,
                swaps,
            ),
{
    let pools = active_pools(&options)?;
    let pool_count = pools.len();
    let length = options.length as usize;
    if length == 0 {
        return Err(ArkaError::empty_field("length"));
    }
    if length < pool_count {
        return Err(ArkaError::empty_field("length"));
    }
    let ghost pv = pool_views(pools@);
    proof {
        lemma_enabled_pools_nonempty(options);
        assert forall|j: int| 0 <= j < pools.len() implies pools@[j].len() > 0 by {
            assert(pv[j] == pools@[j]@);
        }
        let c0 = pv[0][0];
        assert(pv[0].contains(c0));
        lemma_joined_contains(pv, c0);
    }
    let mut rng = crypto_rng()?;
    let combined_len = combined_charset(&pools).len();
    let picks = draw_picks(&mut rng, &pools);
    let fills = draw_fills(&mut rng, combined_len, length - pool_count);
    let swaps = draw_swaps(&mut rng, length);
    proof {
        assert forall|k: int| 0 <= k < picks@.len() implies #[trigger] picks@[k] < pv[k].len() by {
            assert(pv[k] == pools@[k]@);
        }
        assert(draws_in_range(pv, picks@, fills@, swaps@));
        lemma_assembled_valid(options, picks@, fills@, swaps@);
    }
    let password = assemble_password(&pools, &picks, &fills, &swaps);
    Ok(password)
}

} // verus!
