//! Two-adic fast Fourier transform over a prime field.
//!
//! The field order `2^64 - 2^32 + 1` has two-adicity 32: its
//! multiplicative group contains a primitive root of unity of order
//! `2^32`, so a polynomial with `n = 2^k` coefficients (`k` at most 32)
//! can be evaluated at all `n`-th roots of unity by the recursive
//! Cooley-Tukey butterfly. The forward transform returns, at index `i`,
//! the value of the polynomial at the `i`-th power of the chosen root;
//! the inverse transform runs the same butterfly on the inverse root and
//! scales by the inverse of `n`.

use vstd::prelude::*;
use vstd::arithmetic::div_mod::{
    lemma_add_mod_noop, lemma_add_mod_noop_right, lemma_mod_bound, lemma_mod_multiples_vanish,
    lemma_mul_mod_noop, lemma_mul_mod_noop_general, lemma_small_mod, lemma_sub_mod_noop,
};
use vstd::arithmetic::mul::{lemma_mul_inequality, lemma_mul_is_distributive_add};
use vstd::arithmetic::power::{
    lemma_pow0, lemma_pow1, lemma_pow_adds, lemma_pow_mod_noop, lemma_pow_multiplies, pow,
};
use vstd::arithmetic::mul::lemma_mul_basics;
use vstd::arithmetic::power2::{
    lemma2_to64, lemma_pow2_adds, lemma_pow2_strictly_increases, lemma_pow2_subtracts,
    lemma_pow2_unfold, pow2,
};

use crate::errors::FFTError;
use crate::polynomial::Polynomial;
use crate::u64_prime_field::U64FieldElement;

verus! {

/// Order of the two-adic prime field the transform runs over.
pub const FFT_FIELD_ORDER: u64 = 18446744069414584321;

/// The largest `k` with `2^k` dividing `FFT_FIELD_ORDER - 1`: the
/// two-adicity bound on transform sizes.
pub const TWO_ADICITY: u64 = 32;

/// A primitive `2^32`-th root of unity of the field.
pub const TWO_ADIC_ROOT_OF_UNITY: u64 = 1753635133440165772;

/// The multiplicative inverse of the root above, driving the inverse
/// transform.
pub const TWO_ADIC_ROOT_INVERSE: u64 = 8554224884056360729;

/// Element of the two-adic field.
pub type FftFieldElement = U64FieldElement<FFT_FIELD_ORDER>;

/// Whether `n` is a positive power of two.
pub open spec fn spec_is_power_of_two(n: int) -> bool
    decreases n,
{
    if n <= 0 {
        false
    } else if n == 1 {
        true
    } else {
        n % 2 == 0 && spec_is_power_of_two(n / 2)
    }
}

/// The even-index subsequence of an even-length coefficient sequence.
pub open spec fn spec_evens(s: Seq<FftFieldElement>) -> Seq<FftFieldElement> {
    Seq::new((s.len() / 2) as nat, |j: int| s[2 * j])
}

/// The odd-index subsequence of an even-length coefficient sequence.
pub open spec fn spec_odds(s: Seq<FftFieldElement>) -> Seq<FftFieldElement> {
    Seq::new((s.len() / 2) as nat, |j: int| s[2 * j + 1])
}

/// The `n`-th root of unity the forward transform of size `n` evaluates
/// at: the primitive root raised to `2^32 / n`.
pub open spec fn spec_fft_root(n: nat) -> int {
    U64FieldElement::<FFT_FIELD_ORDER>::spec_pow(
        TWO_ADIC_ROOT_OF_UNITY as int,
        pow2(32) / n,
    )
}

/// The root the inverse transform of size `n` evaluates at: the inverse
/// primitive root raised to `2^32 / n`.
pub open spec fn spec_inverse_fft_root(n: nat) -> int {
    U64FieldElement::<FFT_FIELD_ORDER>::spec_pow(
        TWO_ADIC_ROOT_INVERSE as int,
        pow2(32) / n,
    )
}

/// Squaring walks the exponent ladder: from the residue of `b^e` the
/// residue of `b^(2e)` is its square.
proof fn lemma_square_step(b: int, e: nat, c: int)
    requires
        pow(b, e) % (FFT_FIELD_ORDER as int) == c,
    ensures
        pow(b, 2 * e) % (FFT_FIELD_ORDER as int) == (c * c) % (FFT_FIELD_ORDER as int),
{
    lemma_pow_adds(b, e, e);
    lemma_mul_mod_noop(pow(b, e), pow(b, e), FFT_FIELD_ORDER as int);
    assert(2 * e == e + e);
}

/// The declared root has exact order `2^32`: raised to `2^32` it is one,
/// raised to `2^31` it is `-1`. Established by 32 explicit squarings.
proof fn lemma_root_order()
    ensures
        pow(TWO_ADIC_ROOT_OF_UNITY as int, 0x1_0000_0000) % (FFT_FIELD_ORDER as int) == 1,
        pow(TWO_ADIC_ROOT_OF_UNITY as int, 0x8000_0000) % (FFT_FIELD_ORDER as int)
            == FFT_FIELD_ORDER as int - 1,
{
    lemma_pow1(TWO_ADIC_ROOT_OF_UNITY as int);
    lemma_small_mod(TWO_ADIC_ROOT_OF_UNITY as nat, FFT_FIELD_ORDER as nat);
        lemma_square_step(TWO_ADIC_ROOT_OF_UNITY as int, 1, 1753635133440165772);
        assert((1753635133440165772int * 1753635133440165772) % (FFT_FIELD_ORDER as int) == 4614640910117430873);
        lemma_square_step(TWO_ADIC_ROOT_OF_UNITY as int, 2, 4614640910117430873);
        assert((4614640910117430873int * 4614640910117430873) % (FFT_FIELD_ORDER as int) == 9123114210336311365);
        lemma_square_step(TWO_ADIC_ROOT_OF_UNITY as int, 4, 9123114210336311365);
        assert((9123114210336311365int * 9123114210336311365) % (FFT_FIELD_ORDER as int) == 16116352524544190054);
        lemma_square_step(TWO_ADIC_ROOT_OF_UNITY as int, 8, 16116352524544190054);
        assert((16116352524544190054int * 16116352524544190054) % (FFT_FIELD_ORDER as int) == 6414415596519834757);
        lemma_square_step(TWO_ADIC_ROOT_OF_UNITY as int, 16, 6414415596519834757);
        assert((6414415596519834757int * 6414415596519834757) % (FFT_FIELD_ORDER as int) == 1213594585890690845);
        lemma_square_step(TWO_ADIC_ROOT_OF_UNITY as int, 32, 1213594585890690845);
        assert((1213594585890690845int * 1213594585890690845) % (FFT_FIELD_ORDER as int) == 17096174751763063430);
        lemma_square_step(TWO_ADIC_ROOT_OF_UNITY as int, 64, 17096174751763063430);
        assert((17096174751763063430int * 17096174751763063430) % (FFT_FIELD_ORDER as int) == 5456943929260765144);
        lemma_square_step(TWO_ADIC_ROOT_OF_UNITY as int, 128, 5456943929260765144);
        assert((5456943929260765144int * 5456943929260765144) % (FFT_FIELD_ORDER as int) == 9713644485405565297);
        lemma_square_step(TWO_ADIC_ROOT_OF_UNITY as int, 256, 9713644485405565297);
        assert((9713644485405565297int * 9713644485405565297) % (FFT_FIELD_ORDER as int) == 16905767614792059275);
        lemma_square_step(TWO_ADIC_ROOT_OF_UNITY as int, 512, 16905767614792059275);
        assert((16905767614792059275int * 16905767614792059275) % (FFT_FIELD_ORDER as int) == 5416168637041100469);
        lemma_square_step(TWO_ADIC_ROOT_OF_UNITY as int, 1024, 5416168637041100469);
        assert((5416168637041100469int * 5416168637041100469) % (FFT_FIELD_ORDER as int) == 17654865857378133588);
        lemma_square_step(TWO_ADIC_ROOT_OF_UNITY as int, 2048, 17654865857378133588);
        assert((17654865857378133588int * 17654865857378133588) % (FFT_FIELD_ORDER as int) == 3511170319078647661);
        lemma_square_step(TWO_ADIC_ROOT_OF_UNITY as int, 4096, 3511170319078647661);
        assert((3511170319078647661int * 3511170319078647661) % (FFT_FIELD_ORDER as int) == 18146160046829613826);
        lemma_square_step(TWO_ADIC_ROOT_OF_UNITY as int, 8192, 18146160046829613826);
        assert((18146160046829613826int * 18146160046829613826) % (FFT_FIELD_ORDER as int) == 9306717745644682924);
        lemma_square_step(TWO_ADIC_ROOT_OF_UNITY as int, 16384, 9306717745644682924);
        assert((9306717745644682924int * 9306717745644682924) % (FFT_FIELD_ORDER as int) == 12380578893860276750);
        lemma_square_step(TWO_ADIC_ROOT_OF_UNITY as int, 32768, 12380578893860276750);
        assert((12380578893860276750int * 12380578893860276750) % (FFT_FIELD_ORDER as int) == 6115771955107415310);
        lemma_square_step(TWO_ADIC_ROOT_OF_UNITY as int, 65536, 6115771955107415310);
        assert((6115771955107415310int * 6115771955107415310) % (FFT_FIELD_ORDER as int) == 17776499369601055404);
        lemma_square_step(TWO_ADIC_ROOT_OF_UNITY as int, 131072, 17776499369601055404);
        assert((17776499369601055404int * 17776499369601055404) % (FFT_FIELD_ORDER as int) == 16207902636198568418);
        lemma_square_step(TWO_ADIC_ROOT_OF_UNITY as int, 262144, 16207902636198568418);
        assert((16207902636198568418int * 16207902636198568418) % (FFT_FIELD_ORDER as int) == 1532612707718625687);
        lemma_square_step(TWO_ADIC_ROOT_OF_UNITY as int, 524288, 1532612707718625687);
        assert((1532612707718625687int * 1532612707718625687) % (FFT_FIELD_ORDER as int) == 17492915097719143606);
        lemma_square_step(TWO_ADIC_ROOT_OF_UNITY as int, 1048576, 17492915097719143606);
        assert((17492915097719143606int * 17492915097719143606) % (FFT_FIELD_ORDER as int) == 455906449640507599);
        lemma_square_step(TWO_ADIC_ROOT_OF_UNITY as int, 2097152, 455906449640507599);
        assert((455906449640507599int * 455906449640507599) % (FFT_FIELD_ORDER as int) == 11353340290879379826);
        lemma_square_step(TWO_ADIC_ROOT_OF_UNITY as int, 4194304, 11353340290879379826);
        assert((11353340290879379826int * 11353340290879379826) % (FFT_FIELD_ORDER as int) == 1803076106186727246);
        lemma_square_step(TWO_ADIC_ROOT_OF_UNITY as int, 8388608, 1803076106186727246);
        assert((1803076106186727246int * 1803076106186727246) % (FFT_FIELD_ORDER as int) == 13797081185216407910);
        lemma_square_step(TWO_ADIC_ROOT_OF_UNITY as int, 16777216, 13797081185216407910);
        assert((13797081185216407910int * 13797081185216407910) % (FFT_FIELD_ORDER as int) == 17870292113338400769);
        lemma_square_step(TWO_ADIC_ROOT_OF_UNITY as int, 33554432, 17870292113338400769);
        assert((17870292113338400769int * 17870292113338400769) % (FFT_FIELD_ORDER as int) == 549755813888);
        lemma_square_step(TWO_ADIC_ROOT_OF_UNITY as int, 67108864, 549755813888);
        assert((549755813888int * 549755813888) % (FFT_FIELD_ORDER as int) == 70368744161280);
        lemma_square_step(TWO_ADIC_ROOT_OF_UNITY as int, 134217728, 70368744161280);
        assert((70368744161280int * 70368744161280) % (FFT_FIELD_ORDER as int) == 17293822564807737345);
        lemma_square_step(TWO_ADIC_ROOT_OF_UNITY as int, 268435456, 17293822564807737345);
        assert((17293822564807737345int * 17293822564807737345) % (FFT_FIELD_ORDER as int) == 18446744069397807105);
        lemma_square_step(TWO_ADIC_ROOT_OF_UNITY as int, 536870912, 18446744069397807105);
        assert((18446744069397807105int * 18446744069397807105) % (FFT_FIELD_ORDER as int) == 281474976710656);
        lemma_square_step(TWO_ADIC_ROOT_OF_UNITY as int, 1073741824, 281474976710656);
        assert((281474976710656int * 281474976710656) % (FFT_FIELD_ORDER as int) == 18446744069414584320);
        lemma_square_step(TWO_ADIC_ROOT_OF_UNITY as int, 2147483648, 18446744069414584320);
        assert((18446744069414584320int * 18446744069414584320) % (FFT_FIELD_ORDER as int) == 1);
}

/// The declared inverse root has exact order `2^32` as well.
proof fn lemma_inverse_root_order()
    ensures
        pow(TWO_ADIC_ROOT_INVERSE as int, 0x1_0000_0000) % (FFT_FIELD_ORDER as int) == 1,
        pow(TWO_ADIC_ROOT_INVERSE as int, 0x8000_0000) % (FFT_FIELD_ORDER as int)
            == FFT_FIELD_ORDER as int - 1,
{
    lemma_pow1(TWO_ADIC_ROOT_INVERSE as int);
    lemma_small_mod(TWO_ADIC_ROOT_INVERSE as nat, FFT_FIELD_ORDER as nat);
        lemma_square_step(TWO_ADIC_ROOT_INVERSE as int, 1, 8554224884056360729);
        assert((8554224884056360729int * 8554224884056360729) % (FFT_FIELD_ORDER as int) == 10790884855407511297);
        lemma_square_step(TWO_ADIC_ROOT_INVERSE as int, 2, 10790884855407511297);
        assert((10790884855407511297int * 10790884855407511297) % (FFT_FIELD_ORDER as int) == 16303955383020744715);
        lemma_square_step(TWO_ADIC_ROOT_INVERSE as int, 4, 16303955383020744715);
        assert((16303955383020744715int * 16303955383020744715) % (FFT_FIELD_ORDER as int) == 16488041148801377373);
        lemma_square_step(TWO_ADIC_ROOT_INVERSE as int, 8, 16488041148801377373);
        assert((16488041148801377373int * 16488041148801377373) % (FFT_FIELD_ORDER as int) == 4514835231089717636);
        lemma_square_step(TWO_ADIC_ROOT_INVERSE as int, 16, 4514835231089717636);
        assert((4514835231089717636int * 4514835231089717636) % (FFT_FIELD_ORDER as int) == 10516896061424301529);
        lemma_square_step(TWO_ADIC_ROOT_INVERSE as int, 32, 10516896061424301529);
        assert((10516896061424301529int * 10516896061424301529) % (FFT_FIELD_ORDER as int) == 16884827967813875098);
        lemma_square_step(TWO_ADIC_ROOT_INVERSE as int, 64, 16884827967813875098);
        assert((16884827967813875098int * 16884827967813875098) % (FFT_FIELD_ORDER as int) == 13843946492009319323);
        lemma_square_step(TWO_ADIC_ROOT_INVERSE as int, 128, 13843946492009319323);
        assert((13843946492009319323int * 13843946492009319323) % (FFT_FIELD_ORDER as int) == 1219213613525454263);
        lemma_square_step(TWO_ADIC_ROOT_INVERSE as int, 256, 1219213613525454263);
        assert((1219213613525454263int * 1219213613525454263) % (FFT_FIELD_ORDER as int) == 5456584715443070302);
        lemma_square_step(TWO_ADIC_ROOT_INVERSE as int, 512, 5456584715443070302);
        assert((5456584715443070302int * 5456584715443070302) % (FFT_FIELD_ORDER as int) == 15307271466853436433);
        lemma_square_step(TWO_ADIC_ROOT_INVERSE as int, 1024, 15307271466853436433);
        assert((15307271466853436433int * 15307271466853436433) % (FFT_FIELD_ORDER as int) == 11898519751787946856);
        lemma_square_step(TWO_ADIC_ROOT_INVERSE as int, 2048, 11898519751787946856);
        assert((11898519751787946856int * 11898519751787946856) % (FFT_FIELD_ORDER as int) == 17260140776825220475);
        lemma_square_step(TWO_ADIC_ROOT_INVERSE as int, 4096, 17260140776825220475);
        assert((17260140776825220475int * 17260140776825220475) % (FFT_FIELD_ORDER as int) == 5089696809409609209);
        lemma_square_step(TWO_ADIC_ROOT_INVERSE as int, 8192, 5089696809409609209);
        assert((5089696809409609209int * 5089696809409609209) % (FFT_FIELD_ORDER as int) == 2513567076326282710);
        lemma_square_step(TWO_ADIC_ROOT_INVERSE as int, 16384, 2513567076326282710);
        assert((2513567076326282710int * 2513567076326282710) % (FFT_FIELD_ORDER as int) == 14744321562856667967);
        lemma_square_step(TWO_ADIC_ROOT_INVERSE as int, 32768, 14744321562856667967);
        assert((14744321562856667967int * 14744321562856667967) % (FFT_FIELD_ORDER as int) == 7868944258580147481);
        lemma_square_step(TWO_ADIC_ROOT_INVERSE as int, 65536, 7868944258580147481);
        assert((7868944258580147481int * 7868944258580147481) % (FFT_FIELD_ORDER as int) == 1553425662128427817);
        lemma_square_step(TWO_ADIC_ROOT_INVERSE as int, 131072, 1553425662128427817);
        assert((1553425662128427817int * 1553425662128427817) % (FFT_FIELD_ORDER as int) == 4654242210262998966);
        lemma_square_step(TWO_ADIC_ROOT_INVERSE as int, 262144, 4654242210262998966);
        assert((4654242210262998966int * 4654242210262998966) % (FFT_FIELD_ORDER as int) == 3968367389790187850);
        lemma_square_step(TWO_ADIC_ROOT_INVERSE as int, 524288, 3968367389790187850);
        assert((3968367389790187850int * 3968367389790187850) % (FFT_FIELD_ORDER as int) == 11164456749895610016);
        lemma_square_step(TWO_ADIC_ROOT_INVERSE as int, 1048576, 11164456749895610016);
        assert((11164456749895610016int * 11164456749895610016) % (FFT_FIELD_ORDER as int) == 8548973421900915981);
        lemma_square_step(TWO_ADIC_ROOT_INVERSE as int, 2097152, 8548973421900915981);
        assert((8548973421900915981int * 8548973421900915981) % (FFT_FIELD_ORDER as int) == 4295002282146690441);
        lemma_square_step(TWO_ADIC_ROOT_INVERSE as int, 4194304, 4295002282146690441);
        assert((4295002282146690441int * 4295002282146690441) % (FFT_FIELD_ORDER as int) == 4459017075746761332);
        lemma_square_step(TWO_ADIC_ROOT_INVERSE as int, 8388608, 4459017075746761332);
        assert((4459017075746761332int * 4459017075746761332) % (FFT_FIELD_ORDER as int) == 2117504431143841456);
        lemma_square_step(TWO_ADIC_ROOT_INVERSE as int, 16777216, 2117504431143841456);
        assert((2117504431143841456int * 2117504431143841456) % (FFT_FIELD_ORDER as int) == 18442240469787213841);
        lemma_square_step(TWO_ADIC_ROOT_INVERSE as int, 33554432, 18442240469787213841);
        assert((18442240469787213841int * 18442240469787213841) % (FFT_FIELD_ORDER as int) == 18302628881338728449);
        lemma_square_step(TWO_ADIC_ROOT_INVERSE as int, 67108864, 18302628881338728449);
        assert((18302628881338728449int * 18302628881338728449) % (FFT_FIELD_ORDER as int) == 18446744069414322177);
        lemma_square_step(TWO_ADIC_ROOT_INVERSE as int, 134217728, 18446744069414322177);
        assert((18446744069414322177int * 18446744069414322177) % (FFT_FIELD_ORDER as int) == 68719476736);
        lemma_square_step(TWO_ADIC_ROOT_INVERSE as int, 268435456, 68719476736);
        assert((68719476736int * 68719476736) % (FFT_FIELD_ORDER as int) == 1099511627520);
        lemma_square_step(TWO_ADIC_ROOT_INVERSE as int, 536870912, 1099511627520);
        assert((1099511627520int * 1099511627520) % (FFT_FIELD_ORDER as int) == 18446462594437873665);
        lemma_square_step(TWO_ADIC_ROOT_INVERSE as int, 1073741824, 18446462594437873665);
        assert((18446462594437873665int * 18446462594437873665) % (FFT_FIELD_ORDER as int) == 18446744069414584320);
        lemma_square_step(TWO_ADIC_ROOT_INVERSE as int, 2147483648, 18446744069414584320);
        assert((18446744069414584320int * 18446744069414584320) % (FFT_FIELD_ORDER as int) == 1);
}

/// A Horner evaluation is always a reduced residue.
proof fn lemma_eval_bounds(s: Seq<FftFieldElement>, x: int)
    ensures
        0 <= Polynomial::<FFT_FIELD_ORDER>::spec_eval(s, x) < FFT_FIELD_ORDER as int,
{
    if s.len() == 0 {
    } else {
        let inner = U64FieldElement::<FFT_FIELD_ORDER>::spec_mul(
            x,
            Polynomial::<FFT_FIELD_ORDER>::spec_eval(s.subrange(1, s.len() as int), x),
        );
        lemma_mod_bound(s[0].spec_value() + inner, FFT_FIELD_ORDER as int);
    }
}

/// The decimation identity behind the butterfly: an even-length
/// polynomial splits into its even and odd parts,
/// `p(x) == p_even(x^2) + x * p_odd(x^2)`, in reduced arithmetic.
proof fn lemma_eval_split(s: Seq<FftFieldElement>, x: int)
    requires
        s.len() % 2 == 0,
    ensures
        Polynomial::<FFT_FIELD_ORDER>::spec_eval(s, x)
            == U64FieldElement::<FFT_FIELD_ORDER>::spec_add(
            Polynomial::<FFT_FIELD_ORDER>::spec_eval(
                spec_evens(s),
                U64FieldElement::<FFT_FIELD_ORDER>::spec_mul(x, x),
            ),
            U64FieldElement::<FFT_FIELD_ORDER>::spec_mul(
                x,
                Polynomial::<FFT_FIELD_ORDER>::spec_eval(
                    spec_odds(s),
                    U64FieldElement::<FFT_FIELD_ORDER>::spec_mul(x, x),
                ),
            ),
        ),
    decreases s.len(),
{
    let m = FFT_FIELD_ORDER as int;
    if s.len() == 0 {
        lemma_small_mod(0, FFT_FIELD_ORDER as nat);
    } else {
        let t = s.subrange(2, s.len() as int);
        lemma_eval_split(t, x);
        let a = s[0].spec_value();
        let b = s[1].spec_value();
        let x2 = (x * x) % m;
        let ev = Polynomial::<FFT_FIELD_ORDER>::spec_eval(spec_evens(t), x2);
        let od = Polynomial::<FFT_FIELD_ORDER>::spec_eval(spec_odds(t), x2);
        // sequence bookkeeping: heads and tails of the split parts
        let s1 = s.subrange(1, s.len() as int);
        assert(s1.subrange(1, s1.len() as int) =~= t);
        assert(spec_evens(s)[0] == s[0]);
        assert(spec_odds(s)[0] == s[1]);
        assert(spec_evens(s).subrange(1, spec_evens(s).len() as int) =~= spec_evens(t));
        assert(spec_odds(s).subrange(1, spec_odds(s).len() as int) =~= spec_odds(t));
        // the left side in unreduced form
        lemma_add_mod_noop_right(ev, x * od, m);
        assert(Polynomial::<FFT_FIELD_ORDER>::spec_eval(t, x) == (ev + x * od) % m);
        lemma_mul_mod_noop_general(x, ev + x * od, m);
        lemma_add_mod_noop_right(b, x * (ev + x * od), m);
        assert(Polynomial::<FFT_FIELD_ORDER>::spec_eval(s1, x) == (b + x * (ev + x * od)) % m);
        lemma_mul_mod_noop_general(x, b + x * (ev + x * od), m);
        lemma_add_mod_noop_right(a, x * (b + x * (ev + x * od)), m);
        assert(Polynomial::<FFT_FIELD_ORDER>::spec_eval(s, x) == (a + x * (b + x * (ev + x * od)))
            % m);
        // the right side in unreduced form
        lemma_mul_mod_noop_general(x * x, ev, m);
        lemma_add_mod_noop_right(a, (x * x) * ev, m);
        assert(Polynomial::<FFT_FIELD_ORDER>::spec_eval(spec_evens(s), x2) == (a + (x * x) * ev)
            % m);
        lemma_mul_mod_noop_general(x * x, od, m);
        lemma_add_mod_noop_right(b, (x * x) * od, m);
        assert(Polynomial::<FFT_FIELD_ORDER>::spec_eval(spec_odds(s), x2) == (b + (x * x) * od)
            % m);
        lemma_mul_mod_noop_general(x, b + (x * x) * od, m);
        lemma_add_mod_noop(a + (x * x) * ev, x * (b + (x * x) * od), m);
        // the two unreduced forms agree as integers
        assert(a + x * (b + x * (ev + x * od)) == a + (x * x) * ev + x * (b + (x * x) * od))
            by (nonlinear_arith);
    }
}

/// Law: the transform is linear. A pointwise sum of equal-length
/// coefficient sequences evaluates, at every point, to the sum of the
/// separate evaluations — so the transform of a sum is the pointwise sum
/// of the transforms.
pub proof fn lemma_fft_linearity(
    p: Seq<FftFieldElement>,
    q: Seq<FftFieldElement>,
    r: Seq<FftFieldElement>,
    x: int,
)
    requires
        p.len() == q.len(),
        r.len() == p.len(),
        forall|i: int|
            0 <= i < r.len() ==> (#[trigger] r[i]).spec_value()
                == U64FieldElement::<FFT_FIELD_ORDER>::spec_add(
                p[i].spec_value(),
                q[i].spec_value(),
            ),
    ensures
        Polynomial::<FFT_FIELD_ORDER>::spec_eval(r, x)
            == U64FieldElement::<FFT_FIELD_ORDER>::spec_add(
            Polynomial::<FFT_FIELD_ORDER>::spec_eval(p, x),
            Polynomial::<FFT_FIELD_ORDER>::spec_eval(q, x),
        ),
    decreases p.len(),
{
    let m = FFT_FIELD_ORDER as int;
    if p.len() == 0 {
        lemma_small_mod(0, FFT_FIELD_ORDER as nat);
    } else {
        let p1 = p.subrange(1, p.len() as int);
        let q1 = q.subrange(1, q.len() as int);
        let r1 = r.subrange(1, r.len() as int);
        assert forall|i: int| 0 <= i < r1.len() implies (#[trigger] r1[i]).spec_value()
            == U64FieldElement::<FFT_FIELD_ORDER>::spec_add(
            p1[i].spec_value(),
            q1[i].spec_value(),
        ) by {
            assert(r1[i] == r[i + 1]);
        }
        lemma_fft_linearity(p1, q1, r1, x);
        let ep = Polynomial::<FFT_FIELD_ORDER>::spec_eval(p1, x);
        let eq = Polynomial::<FFT_FIELD_ORDER>::spec_eval(q1, x);
        let (a, b) = (p[0].spec_value(), q[0].spec_value());
        // left side, unreduced
        lemma_mul_mod_noop_general(x, ep + eq, m);
        lemma_mul_is_distributive_add(x, ep, eq);
        lemma_add_mod_noop(a + b, x * ep + x * eq, m);
        assert(Polynomial::<FFT_FIELD_ORDER>::spec_eval(r, x) == (a + b + (x * ep + x * eq)) % m);
        // right side, unreduced
        lemma_add_mod_noop_right(a, x * ep, m);
        lemma_add_mod_noop_right(b, x * eq, m);
        lemma_add_mod_noop(a + x * ep, b + x * eq, m);
        assert(U64FieldElement::<FFT_FIELD_ORDER>::spec_add(
            Polynomial::<FFT_FIELD_ORDER>::spec_eval(p, x),
            Polynomial::<FFT_FIELD_ORDER>::spec_eval(q, x),
        ) == (a + x * ep + (b + x * eq)) % m);
    }
}

/// `2^k` as a machine integer, for exponents within the two-adicity.
fn exec_pow2(k: u64) -> (r: u64)
    requires
        k <= 32,
    ensures
        r as nat == pow2(k as nat),
{
    let mut r: u64 = 1;
    let mut i: u64 = 0;
    proof {
        lemma2_to64();
    }
    while i < k
        invariant
            i <= k,
            k <= 32,
            r as nat == pow2(i as nat),
            r <= 0x1_0000_0000,
        decreases k - i,
    {
        proof {
            lemma2_to64();
            lemma_pow2_unfold((i + 1) as nat);
            if i + 1 < 32 {
                lemma_pow2_strictly_increases((i + 1) as nat, 32);
            }
        }
        r = r * 2;
        i = i + 1;
    }
    r
}

/// The recursive butterfly: evaluates the polynomial at every power of
/// the given root of unity, whose order must be the coefficient count.
fn fft_with_root(coeffs: &Vec<FftFieldElement>, omega: FftFieldElement) -> (r: Vec<
    FftFieldElement,
>)
    requires
        forall|i: int| 0 <= i < coeffs@.len() ==> (#[trigger] coeffs@[i]).wf(),
        omega.wf(),
        spec_is_power_of_two(coeffs@.len() as int),
        U64FieldElement::<FFT_FIELD_ORDER>::spec_pow(omega.spec_value(), coeffs@.len() as nat)
            == 1,
        coeffs@.len() >= 2 ==> U64FieldElement::<FFT_FIELD_ORDER>::spec_pow(
            omega.spec_value(),
            (coeffs@.len() / 2) as nat,
        ) == FFT_FIELD_ORDER as int - 1,
    ensures
        r@.len() == coeffs@.len(),
        forall|i: int|
            0 <= i < r@.len() ==> (#[trigger] r@[i]).wf() && r@[i].spec_value()
                == Polynomial::<FFT_FIELD_ORDER>::spec_eval(
                coeffs@,
                U64FieldElement::<FFT_FIELD_ORDER>::spec_pow(omega.spec_value(), i as nat),
            ),
    decreases coeffs@.len(),
{
    let n = coeffs.len();
    let ghost s = coeffs@;
    let ghost m = FFT_FIELD_ORDER as int;
    let ghost wv = omega.spec_value();
    if n == 1 {
        let mut out: Vec<FftFieldElement> = Vec::new();
        out.push(coeffs[0]);
        proof {
            lemma_pow0(wv);
            lemma_small_mod(1, FFT_FIELD_ORDER as nat);
            assert(s.subrange(1, 1) =~= Seq::<FftFieldElement>::empty());
            assert(Polynomial::<FFT_FIELD_ORDER>::spec_eval(
                Seq::<FftFieldElement>::empty(),
                1,
            ) == 0);
            lemma_small_mod(s[0].spec_value() as nat, FFT_FIELD_ORDER as nat);
            assert(out@[0].spec_value() == Polynomial::<FFT_FIELD_ORDER>::spec_eval(
                s,
                U64FieldElement::<FFT_FIELD_ORDER>::spec_pow(wv, 0),
            ));
        }
        out
    } else {
        proof {
            assert(n % 2 == 0);
        }
        let half = n / 2;
        let mut evens: Vec<FftFieldElement> = Vec::new();
        let mut odds: Vec<FftFieldElement> = Vec::new();
        let mut i: usize = 0;
        while i < half
            invariant
                i <= half,
                half == n / 2,
                n == s.len(),
                n % 2 == 0,
                s == coeffs@,
                forall|j: int| 0 <= j < s.len() ==> (#[trigger] s[j]).wf(),
                evens@.len() == i,
                odds@.len() == i,
                forall|j: int| 0 <= j < i ==> evens@[j] == s[2 * j],
                forall|j: int| 0 <= j < i ==> odds@[j] == s[2 * j + 1],
            decreases half - i,
        {
            evens.push(coeffs[2 * i]);
            odds.push(coeffs[2 * i + 1]);
            i = i + 1;
        }
        proof {
            assert(evens@ =~= spec_evens(s));
            assert(odds@ =~= spec_odds(s));
        }
        let omega_squared = omega.mul(omega);
        let ghost w2v = omega_squared.spec_value();
        proof {
            assert(spec_is_power_of_two(half as int));
            lemma_pow_adds(wv, 1, 1);
            lemma_pow1(wv);
            lemma_pow_mod_noop(wv * wv, half as nat, m);
            lemma_pow_multiplies(wv, 2, half as nat);
            assert(2 * (half as nat) == n as nat);
            assert(U64FieldElement::<FFT_FIELD_ORDER>::spec_pow(w2v, half as nat) == 1);
            if half >= 2 {
                assert(half % 2 == 0);
                lemma_pow_mod_noop(wv * wv, (half / 2) as nat, m);
                lemma_pow_multiplies(wv, 2, (half / 2) as nat);
                assert(2 * ((half / 2) as nat) == half as nat);
            }
        }
        proof {
            assert(evens@.len() < coeffs@.len());
            assert(odds@.len() < coeffs@.len());
        }
        let evens_out = fft_with_root(&evens, omega_squared);
        let odds_out = fft_with_root(&odds, omega_squared);
        let mut lo: Vec<FftFieldElement> = Vec::new();
        let mut hi: Vec<FftFieldElement> = Vec::new();
        let mut wp = FftFieldElement::one();
        proof {
            lemma_pow0(wv);
            lemma_small_mod(1, FFT_FIELD_ORDER as nat);
        }
        let mut i: usize = 0;
        while i < half
            invariant
                i <= half,
                half == n / 2,
                n == s.len(),
                n % 2 == 0,
                n >= 2,
                s == coeffs@,
                m == FFT_FIELD_ORDER as int,
                wv == omega.spec_value(),
                w2v == omega_squared.spec_value(),
                omega.wf(),
                w2v == U64FieldElement::<FFT_FIELD_ORDER>::spec_mul(wv, wv),
                forall|j: int| 0 <= j < s.len() ==> (#[trigger] s[j]).wf(),
                U64FieldElement::<FFT_FIELD_ORDER>::spec_pow(wv, n as nat) == 1,
                U64FieldElement::<FFT_FIELD_ORDER>::spec_pow(wv, half as nat) == m - 1,
                evens_out@.len() == half,
                odds_out@.len() == half,
                forall|j: int|
                    0 <= j < half ==> (#[trigger] evens_out@[j]).wf()
                        && evens_out@[j].spec_value() == Polynomial::<
                        FFT_FIELD_ORDER,
                    >::spec_eval(
                        spec_evens(s),
                        U64FieldElement::<FFT_FIELD_ORDER>::spec_pow(w2v, j as nat),
                    ),
                forall|j: int|
                    0 <= j < half ==> (#[trigger] odds_out@[j]).wf()
                        && odds_out@[j].spec_value() == Polynomial::<FFT_FIELD_ORDER>::spec_eval(
                        spec_odds(s),
                        U64FieldElement::<FFT_FIELD_ORDER>::spec_pow(w2v, j as nat),
                    ),
                wp.wf(),
                wp.spec_value() == U64FieldElement::<FFT_FIELD_ORDER>::spec_pow(wv, i as nat),
                lo@.len() == i,
                hi@.len() == i,
                forall|j: int|
                    0 <= j < i ==> (#[trigger] lo@[j]).wf() && lo@[j].spec_value()
                        == Polynomial::<FFT_FIELD_ORDER>::spec_eval(
                        s,
                        U64FieldElement::<FFT_FIELD_ORDER>::spec_pow(wv, j as nat),
                    ),
                forall|j: int|
                    0 <= j < i ==> (#[trigger] hi@[j]).wf() && hi@[j].spec_value()
                        == Polynomial::<FFT_FIELD_ORDER>::spec_eval(
                        s,
                        U64FieldElement::<FFT_FIELD_ORDER>::spec_pow(wv, (j + half) as nat),
                    ),
            decreases half - i,
        {
            let term = wp.mul(odds_out[i]);
            let lo_v = evens_out[i].add(term);
            let hi_v = evens_out[i].sub(term);
            proof {
                let xi = pow(wv, i as nat) % m;
                let ev_i = evens_out@[i as int].spec_value();
                let od_i = odds_out@[i as int].spec_value();
                lemma_pow_adds(wv, 1, 1);
                lemma_pow1(wv);
                // the recursion's evaluation point equals the square of this one
                lemma_mul_mod_noop(pow(wv, i as nat), pow(wv, i as nat), m);
                lemma_pow_adds(wv, i as nat, i as nat);
                lemma_pow_mod_noop(wv * wv, i as nat, m);
                lemma_pow_multiplies(wv, 2, i as nat);
                assert(i as nat + i as nat == 2 * (i as nat));
                assert(U64FieldElement::<FFT_FIELD_ORDER>::spec_pow(w2v, i as nat)
                    == U64FieldElement::<FFT_FIELD_ORDER>::spec_mul(xi, xi));
                // the low output is the polynomial's value at this power
                lemma_eval_split(s, xi);
                assert(lo_v.spec_value() == Polynomial::<FFT_FIELD_ORDER>::spec_eval(
                    s,
                    U64FieldElement::<FFT_FIELD_ORDER>::spec_pow(wv, i as nat),
                ));
                // the high output is the value at this power shifted by half:
                // the point squares to the same place and negates the odd term
                let xi2 = pow(wv, (i + half) as nat) % m;
                lemma_mul_mod_noop(
                    pow(wv, (i + half) as nat),
                    pow(wv, (i + half) as nat),
                    m,
                );
                lemma_pow_adds(wv, (i + half) as nat, (i + half) as nat);
                assert((i + half) as nat + (i + half) as nat == 2 * (i as nat) + n as nat);
                lemma_pow_adds(wv, 2 * (i as nat), n as nat);
                lemma_mul_mod_noop(pow(wv, 2 * (i as nat)), pow(wv, n as nat), m);
                lemma_mod_bound(pow(wv, 2 * (i as nat)), m);
                lemma_small_mod((pow(wv, 2 * (i as nat)) % m) as nat, FFT_FIELD_ORDER as nat);
                assert(U64FieldElement::<FFT_FIELD_ORDER>::spec_mul(xi2, xi2)
                    == U64FieldElement::<FFT_FIELD_ORDER>::spec_pow(w2v, i as nat));
                // xi2 == xi * (m - 1) in the field
                lemma_pow_adds(wv, i as nat, half as nat);
                lemma_mul_mod_noop(pow(wv, i as nat), pow(wv, half as nat), m);
                assert(xi2 == (xi * (m - 1)) % m);
                // multiplying the odd part by xi2 negates its xi multiple
                lemma_mul_mod_noop_general(xi * (m - 1), od_i, m);
                assert(xi * (m - 1) * od_i == m * (xi * od_i) + (0 - xi * od_i))
                    by (nonlinear_arith);
                lemma_mod_multiples_vanish(xi * od_i, 0 - xi * od_i, m);
                assert(U64FieldElement::<FFT_FIELD_ORDER>::spec_mul(xi2, od_i) == (0 - xi * od_i)
                    % m);
                // subtraction on the left, addition of the negative on the right
                lemma_sub_mod_noop(ev_i, xi * od_i, m);
                lemma_small_mod(ev_i as nat, FFT_FIELD_ORDER as nat);
                lemma_add_mod_noop_right(ev_i, 0 - xi * od_i, m);
                lemma_eval_split(s, xi2);
                assert(hi_v.spec_value() == Polynomial::<FFT_FIELD_ORDER>::spec_eval(
                    s,
                    U64FieldElement::<FFT_FIELD_ORDER>::spec_pow(wv, (i + half) as nat),
                ));
            }
            lo.push(lo_v);
            hi.push(hi_v);
            wp = wp.mul(omega);
            proof {
                lemma_mul_mod_noop_general(pow(wv, i as nat), wv, m);
                lemma_pow1(wv);
                lemma_pow_adds(wv, i as nat, 1);
            }
            i = i + 1;
        }
        let mut out = lo;
        let mut high_half = hi;
        out.append(&mut high_half);
        proof {
            assert forall|idx: int| 0 <= idx < n implies (#[trigger] out@[idx]).wf()
                && out@[idx].spec_value() == Polynomial::<FFT_FIELD_ORDER>::spec_eval(
                s,
                U64FieldElement::<FFT_FIELD_ORDER>::spec_pow(wv, idx as nat),
            ) by {
                if half <= idx {
                    assert((idx - half) + half == idx);
                }
            }
        }
        out
    }
}

/// Forward transform: evaluates the polynomial with the given
/// coefficients at every `n`-th root of unity, where `n` is the input
/// length. The value at index `i` is the evaluation at the `i`-th power
/// of the size-`n` root. Fails when the length is not a power of two, or
/// exceeds the two-adicity bound `2^32`.
pub fn fft(input: &Vec<FftFieldElement>) -> (res: Result<Vec<FftFieldElement>, FFTError>)
    requires
        forall|i: int| 0 <= i < input@.len() ==> (#[trigger] input@[i]).wf(),
    ensures
        match res {
            Ok(out) => spec_is_power_of_two(input@.len() as int) && input@.len() <= 0x1_0000_0000 && out@.len()
                == input@.len() && forall|i: int|
                0 <= i < out@.len() ==> (#[trigger] out@[i]).wf() && out@[i].spec_value()
                    == Polynomial::<FFT_FIELD_ORDER>::spec_eval(
                    input@,
                    U64FieldElement::<FFT_FIELD_ORDER>::spec_pow(
                        spec_fft_root(input@.len()),
                        i as nat,
                    ),
                ),
            Err(e) => (e == FFTError::InvalidInputSize && !spec_is_power_of_two(input@.len() as int)) || (e
                == FFTError::RootOfUnityUnavailable && spec_is_power_of_two(input@.len() as int)
                && input@.len() > 0x1_0000_0000),
        },
{
    let n = input.len();
    let k = match transform_size_exponent(n) {
        Ok(v) => v,
        Err(e) => {
            return Err(e);
        },
    };
    let e1 = exec_pow2(TWO_ADICITY - k);
    let root = FftFieldElement::new(TWO_ADIC_ROOT_OF_UNITY);
    let omega = root.pow(e1 as u128);
    proof {
        lemma_small_mod(TWO_ADIC_ROOT_OF_UNITY as nat, FFT_FIELD_ORDER as nat);
        lemma_root_order();
        lemma_transform_root_fits(
            TWO_ADIC_ROOT_OF_UNITY as int,
            e1 as nat,
            n as nat,
            k as nat,
        );
        lemma_pow2_subtracts(k as nat, 32);
        lemma2_to64();
        assert(pow2(32) / (n as nat) == e1 as nat);
        assert(spec_fft_root(n as nat) == omega.spec_value());
    }
    Ok(fft_with_root(input, omega))
}

/// Inverse transform: runs the butterfly on the inverse root and scales
/// every output by the inverse of the length, so that it interpolates
/// what the forward transform evaluates. The value at index `i` is the
/// evaluation at the `i`-th power of the inverse size-`n` root, divided
/// by `n`. Fails exactly as the forward transform does.
pub fn inverse_fft(input: &Vec<FftFieldElement>) -> (res: Result<Vec<FftFieldElement>, FFTError>)
    requires
        forall|i: int| 0 <= i < input@.len() ==> (#[trigger] input@[i]).wf(),
    ensures
        match res {
            Ok(out) => spec_is_power_of_two(input@.len() as int) && input@.len() <= 0x1_0000_0000 && out@.len()
                == input@.len() && forall|i: int|
                0 <= i < out@.len() ==> (#[trigger] out@[i]).wf() && out@[i].spec_value()
                    == U64FieldElement::<FFT_FIELD_ORDER>::spec_mul(
                    Polynomial::<FFT_FIELD_ORDER>::spec_eval(
                        input@,
                        U64FieldElement::<FFT_FIELD_ORDER>::spec_pow(
                            spec_inverse_fft_root(input@.len()),
                            i as nat,
                        ),
                    ),
                    U64FieldElement::<FFT_FIELD_ORDER>::spec_inv(input@.len() as int),
                ),
            Err(e) => (e == FFTError::InvalidInputSize && !spec_is_power_of_two(input@.len() as int)) || (e
                == FFTError::RootOfUnityUnavailable && spec_is_power_of_two(input@.len() as int)
                && input@.len() > 0x1_0000_0000),
        },
{
    let n = input.len();
    let k = match transform_size_exponent(n) {
        Ok(v) => v,
        Err(e) => {
            return Err(e);
        },
    };
    let e1 = exec_pow2(TWO_ADICITY - k);
    let root = FftFieldElement::new(TWO_ADIC_ROOT_INVERSE);
    let omega = root.pow(e1 as u128);
    proof {
        lemma_small_mod(TWO_ADIC_ROOT_INVERSE as nat, FFT_FIELD_ORDER as nat);
        lemma_inverse_root_order();
        lemma_transform_root_fits(
            TWO_ADIC_ROOT_INVERSE as int,
            e1 as nat,
            n as nat,
            k as nat,
        );
        lemma_pow2_subtracts(k as nat, 32);
        lemma2_to64();
        assert(pow2(32) / (n as nat) == e1 as nat);
        assert(spec_inverse_fft_root(n as nat) == omega.spec_value());
    }
    let transformed = fft_with_root(input, omega);
    let n_fe = FftFieldElement::new(n as u64);
    proof {
        lemma_small_mod(n as nat, FFT_FIELD_ORDER as nat);
    }
    let n_inv = match n_fe.inv() {
        Ok(v) => v,
        Err(_) => {
            proof {
                assert(false);
            }
            return Err(FFTError::InvalidInputSize);
        },
    };
    let mut out: Vec<FftFieldElement> = Vec::new();
    let mut i: usize = 0;
    while i < n
        invariant
            i <= n,
            n == input@.len(),
            transformed@.len() == n,
            n_inv.wf(),
            n_inv.spec_value() == U64FieldElement::<FFT_FIELD_ORDER>::spec_inv(n as int),
            forall|j: int| 0 <= j < n ==> (#[trigger] transformed@[j]).wf(),
            forall|j: int|
                0 <= j < n ==> (#[trigger] transformed@[j]).spec_value() == Polynomial::<
                FFT_FIELD_ORDER,
                >::spec_eval(
                    input@,
                    U64FieldElement::<FFT_FIELD_ORDER>::spec_pow(
                        spec_inverse_fft_root(input@.len()),
                        j as nat,
                    ),
                ),
            out@.len() == i,
            forall|j: int|
                0 <= j < i ==> (#[trigger] out@[j]).wf() && out@[j].spec_value()
                    == U64FieldElement::<FFT_FIELD_ORDER>::spec_mul(
                    Polynomial::<FFT_FIELD_ORDER>::spec_eval(
                        input@,
                        U64FieldElement::<FFT_FIELD_ORDER>::spec_pow(
                            spec_inverse_fft_root(input@.len()),
                            j as nat,
                        ),
                    ),
                    U64FieldElement::<FFT_FIELD_ORDER>::spec_inv(input@.len() as int),
                ),
        decreases n - i,
    {
        out.push(transformed[i].mul(n_inv));
        i = i + 1;
    }
    Ok(out)
}

/// Finds the exponent of a power-of-two length within the two-adicity
/// bound, reporting the transform errors otherwise.
fn transform_size_exponent(n: usize) -> (res: Result<u64, FFTError>)
    ensures
        match res {
            Ok(k) => spec_is_power_of_two(n as int) && n as int == pow2(k as nat) && k <= TWO_ADICITY && n
                <= 0x1_0000_0000,
            Err(e) => (e == FFTError::InvalidInputSize && !spec_is_power_of_two(n as int)) || (e
                == FFTError::RootOfUnityUnavailable && spec_is_power_of_two(n as int) && n > 0x1_0000_0000),
        },
{
    if n == 0 {
        proof {
            assert(!spec_is_power_of_two(n as int));
        }
        return Err(FFTError::InvalidInputSize);
    }
    let mut mm: usize = n;
    let mut k: u64 = 0;
    proof {
        lemma2_to64();
    }
    while mm > 1
        invariant
            1 <= mm <= n,
            spec_is_power_of_two(n as int) == spec_is_power_of_two(mm as int),
            n as int == mm as int * pow2(k as nat),
            pow2(k as nat) <= n as nat,
        decreases mm,
    {
        if mm % 2 == 1 {
            proof {
                assert(!spec_is_power_of_two(mm as int));
            }
            return Err(FFTError::InvalidInputSize);
        }
        proof {
            lemma2_to64();
            assert(spec_is_power_of_two(mm as int) == spec_is_power_of_two((mm / 2) as int));
            if k >= 64 {
                if k > 64 {
                    lemma_pow2_strictly_increases(64, k as nat);
                }
                assert(false);
            }
            let h = mm as int / 2;
            assert(mm as int == 2 * h);
            lemma_pow2_unfold((k + 1) as nat);
            assert((2 * h) * pow2(k as nat) == h * (2 * pow2(k as nat))) by (nonlinear_arith);
            assert(h >= 1);
            lemma_mul_inequality(1, h, pow2((k + 1) as nat) as int);
        }
        mm = mm / 2;
        k = k + 1;
    }
    proof {
        lemma2_to64();
        assert(mm == 1);
        assert(spec_is_power_of_two(1int));
        lemma_mul_basics(pow2(k as nat) as int);
        assert(n as int == pow2(k as nat));
    }
    if k > TWO_ADICITY {
        proof {
            lemma_pow2_strictly_increases(32, k as nat);
        }
        return Err(FFTError::RootOfUnityUnavailable);
    }
    proof {
        if (k as nat) < 32 {
            lemma_pow2_strictly_increases(k as nat, 32);
        }
    }
    Ok(k)
}

/// Carries the order of a `2^32`-th root of unity down to the root used
/// for a transform of size `2^k`: raised to the size it is one, raised
/// to half the size it is `-1`.
proof fn lemma_transform_root_fits(base: int, e1: nat, n: nat, k: nat)
    requires
        pow(base, 0x1_0000_0000) % (FFT_FIELD_ORDER as int) == 1,
        pow(base, 0x8000_0000) % (FFT_FIELD_ORDER as int) == FFT_FIELD_ORDER as int - 1,
        k <= 32,
        e1 == pow2((32 - k) as nat),
        n == pow2(k),
    ensures
        U64FieldElement::<FFT_FIELD_ORDER>::spec_pow(
            (pow(base, e1) % (FFT_FIELD_ORDER as int)),
            n,
        ) == 1,
        n >= 2 ==> U64FieldElement::<FFT_FIELD_ORDER>::spec_pow(
            (pow(base, e1) % (FFT_FIELD_ORDER as int)),
            n / 2,
        ) == FFT_FIELD_ORDER as int - 1,
{
    let m = FFT_FIELD_ORDER as int;
    lemma2_to64();
    lemma_pow_mod_noop(pow(base, e1), n, m);
    lemma_pow_multiplies(base, e1, n);
    lemma_pow2_adds((32 - k) as nat, k);
    assert(e1 * n == pow2(32));
    if n >= 2 {
        if k == 0 {
            assert(false);
        }
        lemma_pow2_unfold(k);
        assert(n / 2 == pow2((k - 1) as nat));
        lemma_pow_mod_noop(pow(base, e1), n / 2, m);
        lemma_pow_multiplies(base, e1, n / 2);
        lemma_pow2_adds((32 - k) as nat, (k - 1) as nat);
        assert(e1 * (n / 2) == pow2(31));
    }
}

} // verus!
