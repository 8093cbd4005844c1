//! The model of the bit-packed identifier array.
//!
//! Entries of `bits` bits each fill 64-bit words from the top bit down. An
//! entry never straddles two words: a word holds `64 / bits` entries, and
//! what is left of it below its last entry stays zero.

use vstd::arithmetic::div_mod::{
    lemma_div_by_multiple, lemma_div_denominator, lemma_div_multiples_vanish_fancy,
    lemma_fundamental_div_mod, lemma_fundamental_div_mod_converse, lemma_mod_multiples_vanish,
};
use vstd::arithmetic::mul::{
    lemma_mul_inequality, lemma_mul_is_associative, lemma_mul_is_distributive_add_other_way,
};
use vstd::arithmetic::power2::{lemma2_to64, lemma_pow2_adds, lemma_pow2_pos, pow2};
use vstd::prelude::*;

verus! {

/// How many entries of `bits` bits a word holds.
pub open spec fn per_word(bits: nat) -> nat {
    64nat / bits
}

/// Every entry is representable in `bits` bits.
pub open spec fn fits(ids: Seq<u32>, bits: nat) -> bool {
    forall|i: int| 0 <= i < ids.len() ==> #[trigger] ids[i] < pow2(bits)
}

/// The number whose digits in base `2^bits`, most significant first, are
/// the entries.
pub open spec fn digits_value(entries: Seq<u32>, bits: nat) -> nat
    decreases entries.len(),
{
    if entries.len() == 0 {
        0
    } else {
        digits_value(entries.drop_last(), bits) * pow2(bits) + entries.last() as nat
    }
}

/// The word that holds `entries` from its top bit down, the rest zero.
pub open spec fn word_value(entries: Seq<u32>, bits: nat) -> nat {
    digits_value(entries, bits) * pow2((64 - entries.len() * bits) as nat)
}

/// The entries that go into word number `w`.
pub open spec fn word_entries(ids: Seq<u32>, bits: nat, w: nat) -> Seq<u32> {
    let start = w * per_word(bits);
    let end = if start + per_word(bits) <= ids.len() {
        start + per_word(bits)
    } else {
        ids.len()
    };
    ids.subrange(start as int, end as int)
}

/// The number of words that `n` entries occupy.
pub open spec fn word_count(n: nat, bits: nat) -> nat {
    ((n + per_word(bits) - 1) / (per_word(bits) as int)) as nat
}

/// All the words that the entries occupy.
pub open spec fn all_words(ids: Seq<u32>, bits: nat) -> Seq<u64> {
    Seq::new(
        word_count(ids.len(), bits),
        |w: int| word_value(word_entries(ids, bits, w as nat), bits) as u64,
    )
}

/// The packed array: all the words, without the last one if it is zero.
pub open spec fn packed_words(ids: Seq<u32>, bits: nat) -> Seq<u64> {
    let all = all_words(ids, bits);
    if all.len() > 0 && all.last() == 0 {
        all.drop_last()
    } else {
        all
    }
}

/// The bit offset of entry number `slot` of a word.
pub open spec fn slot_shift(bits: nat, slot: nat) -> nat {
    (64 - (slot + 1) * bits) as nat
}

/// Word number `w` of a packed array; words beyond its end are zero.
pub open spec fn word_at(words: Seq<u64>, w: nat) -> u64 {
    if w < words.len() {
        words[w as int]
    } else {
        0
    }
}

/// Entry number `i` of a packed array.
pub open spec fn entry_at(words: Seq<u64>, bits: nat, i: nat) -> nat {
    (word_at(words, i / per_word(bits)) as nat / pow2(slot_shift(bits, i % per_word(bits))))
        % pow2(bits)
}

/// The first `count` entries of a packed array.
pub open spec fn unpacked(words: Seq<u64>, bits: nat, count: nat) -> Seq<u32> {
    Seq::new(count, |i: int| entry_at(words, bits, i as nat) as u32)
}

/// Entries that fit stay below `2^(bits * count)` as one number.
pub proof fn lemma_digits_bound(entries: Seq<u32>, bits: nat)
    requires
        fits(entries, bits),
    ensures
        digits_value(entries, bits) < pow2(entries.len() * bits),
    decreases entries.len(),
{
    if entries.len() == 0 {
        lemma2_to64();
        assert(entries.len() * bits == 0) by (nonlinear_arith)
            requires
                entries.len() == 0,
        ;
    } else {
        let head = entries.drop_last();
        let n = head.len();
        lemma_digits_bound(head, bits);
        let d = digits_value(head, bits) as int;
        let b = pow2(bits) as int;
        let top = pow2(n * bits) as int;
        assert(entries.last() < pow2(bits));
        lemma_pow2_adds(n * bits, bits);
        assert(n * bits + bits == entries.len() * bits) by (nonlinear_arith)
            requires
                n + 1 == entries.len(),
        ;
        lemma_mul_inequality(d + 1, top, b);
        lemma_mul_is_distributive_add_other_way(b, d, 1);
    }
}

/// A word of entries that fit, and that are no more than a word holds, is
/// below `2^64`.
pub proof fn lemma_word_bound(entries: Seq<u32>, bits: nat)
    requires
        fits(entries, bits),
        entries.len() * bits <= 64,
    ensures
        word_value(entries, bits) < 0x1_0000_0000_0000_0000,
{
    let used = entries.len() * bits;
    let free = (64 - used) as nat;
    lemma_digits_bound(entries, bits);
    lemma_pow2_adds(used, free);
    lemma_pow2_pos(free);
    lemma2_to64();
    let d = digits_value(entries, bits) as int;
    lemma_mul_inequality(d + 1, pow2(used) as int, pow2(free) as int);
    lemma_mul_is_distributive_add_other_way(pow2(free) as int, d, 1);
}

/// Adding an entry to a word adds its value at its bit offset.
pub proof fn lemma_word_push(entries: Seq<u32>, bits: nat, x: u32)
    requires
        (entries.len() + 1) * bits <= 64,
    ensures
        word_value(entries.push(x), bits) == word_value(entries, bits) + x * pow2(
            slot_shift(bits, entries.len()),
        ),
{
    let n = entries.len();
    let d = digits_value(entries, bits) as int;
    let b = pow2(bits) as int;
    let sh = slot_shift(bits, n);
    let low = pow2(sh) as int;
    let more = entries.push(x);
    assert(more.drop_last() =~= entries);
    assert(more.last() == x);
    assert(sh + bits == 64 - n * bits && more.len() * bits == (n + 1) * bits && n * bits <= 64)
        by (nonlinear_arith)
        requires
            (n + 1) * bits <= 64,
            sh == 64 - (n + 1) * bits,
            more.len() == n + 1,
    ;
    lemma_pow2_adds(bits, sh);
    lemma_mul_is_associative(d, b, low);
    lemma_mul_is_distributive_add_other_way(low, d * b, x as int);
}

/// The digit at position `s` of the entries taken as one number is entry `s`.
pub proof fn lemma_digit(entries: Seq<u32>, bits: nat, s: nat)
    requires
        fits(entries, bits),
        s < entries.len(),
    ensures
        (digits_value(entries, bits) / pow2(((entries.len() - 1 - s) * bits) as nat)) % pow2(
            bits,
        ) == entries[s as int],
    decreases entries.len(),
{
    let c = entries.len();
    let head = entries.drop_last();
    let d = digits_value(head, bits) as int;
    let b = pow2(bits) as int;
    let x = entries.last() as int;
    lemma_pow2_pos(bits);
    assert(x < b);
    if s == c - 1 {
        lemma2_to64();
        assert((c - 1 - s) * bits == 0) by (nonlinear_arith)
            requires
                s == c - 1,
        ;
        assert((d * b + x) / 1 == d * b + x);
        lemma_mod_multiples_vanish(d, x, b);
        assert(b * d == d * b) by (nonlinear_arith);
        lemma_fundamental_div_mod_converse(x, b, 0, x);
    } else {
        lemma_digit(head, bits, s);
        assert(head[s as int] == entries[s as int]);
        let e = ((c - 2 - s) * bits) as nat;
        assert((c - 1 - s) * bits == bits + e && (c - 2 - s) * bits >= 0) by (nonlinear_arith)
            requires
                s + 2 <= c,
                e == (c - 2 - s) * bits,
        ;
        lemma_pow2_adds(bits, e);
        lemma_pow2_pos(e);
        lemma_div_denominator(d * b + x, b, pow2(e) as int);
        assert(b * d == d * b) by (nonlinear_arith);
        lemma_div_multiples_vanish_fancy(d, x, b);
        assert(head.len() - 1 - s == c - 2 - s);
    }
}

/// Reading entry `s` back out of a word gives that entry.
pub proof fn lemma_word_entry(entries: Seq<u32>, bits: nat, s: nat)
    requires
        fits(entries, bits),
        entries.len() * bits <= 64,
        s < entries.len(),
    ensures
        (word_value(entries, bits) / pow2(slot_shift(bits, s))) % pow2(bits) == entries[s as int],
{
    let c = entries.len();
    let d = digits_value(entries, bits) as int;
    let free = (64 - c * bits) as nat;
    let e = ((c - 1 - s) * bits) as nat;
    assert((c - 1 - s) * bits >= 0 && (s + 1) * bits + (c - 1 - s) * bits == c * bits)
        by (nonlinear_arith)
        requires
            s < c,
    ;
    assert(slot_shift(bits, s) == free + e);
    lemma_pow2_adds(free, e);
    lemma_pow2_pos(free);
    lemma_pow2_pos(e);
    lemma_div_denominator(d * pow2(free), pow2(free) as int, pow2(e) as int);
    lemma_div_by_multiple(d, pow2(free) as int);
    lemma_digit(entries, bits, s);
}

/// Unpacking what was packed, at the same width, gives the entries back.
pub proof fn lemma_pack_round_trip(ids: Seq<u32>, bits: nat)
    requires
        1 <= bits <= 64,
        fits(ids, bits),
    ensures
        unpacked(packed_words(ids, bits), bits, ids.len()) == ids,
{
    let pw = per_word(bits);
    let n = ids.len();
    let all = all_words(ids, bits);
    let packed = packed_words(ids, bits);
    assert(pw * bits <= 64 && pw >= 1) by (nonlinear_arith)
        requires
            pw == 64int / (bits as int),
            1 <= bits <= 64,
    ;
    assert forall|i: int| 0 <= i < n implies entry_at(packed, bits, i as nat) == ids[i] by {
        let w = (i / (pw as int)) as nat;
        let s = (i % (pw as int)) as nat;
        lemma_fundamental_div_mod(i, pw as int);
        let count = word_count(n, bits);
        lemma_fundamental_div_mod(n + pw - 1, pw as int);
        assert(w < count) by (nonlinear_arith)
            requires
                i == pw * w + s,
                i < n,
                pw >= 1,
                n + pw - 1 == pw * count + (n + pw - 1) % (pw as int),
                0 <= (n + pw - 1) % (pw as int) < pw,
        ;
        let entries = word_entries(ids, bits, w);
        assert(pw * w == w * pw) by (nonlinear_arith);
        assert(s < entries.len());
        assert(entries[s as int] == ids[i]);
        assert(fits(entries, bits)) by {
            assert forall|j: int| 0 <= j < entries.len() implies #[trigger] entries[j] < pow2(
                bits,
            ) by {
                assert(entries[j] == ids[w * pw + j]);
            }
        }
        assert(entries.len() * bits <= 64) by (nonlinear_arith)
            requires
                entries.len() <= pw,
                pw * bits <= 64,
        ;
        lemma_word_bound(entries, bits);
        lemma_word_entry(entries, bits, s);
        assert(all[w as int] == word_value(entries, bits));
        assert(word_at(packed, w) == all[w as int]);
    }
    assert(unpacked(packed, bits, n) =~= ids);
}

} // verus!
