//! The map that raises to the order of the base field.
//!
//! It sends the generator to a power that is written out here, keeps the base field, sums
//! and products, and gives back every element when it is applied seven times.
use vstd::prelude::*;
use vstd::arithmetic::div_mod::{lemma_fundamental_div_mod, lemma_mod_multiples_vanish,
    lemma_small_mod};
use crate::felt::{order, reduce};
use crate::septic::element::{coeff, embed_mul, frob, frob_gen, frob_part, pow_canon};
use crate::septic::field::{add_canon, lemma_mul_formula, lemma_reduce_canon, mul_canon, mul_one,
    poly_product, poly_reduce, s_embed, s_gen, s_one, s_pow, s_zero, S7};
use crate::septic::power::{pow_add, pow_mul, pow_of_zero, pow_product, power_of_residue,
    power_of_sum_by_order};

verus! {

/// Whether the coefficients of `a` are those of `c` and the given multiples of the field
/// order.
spec fn reduces_to(a: S7, q: S7, c: S7) -> bool {
    &&& a.c0 == 2130706433 * q.c0 + c.c0
    &&& a.c1 == 2130706433 * q.c1 + c.c1
    &&& a.c2 == 2130706433 * q.c2 + c.c2
    &&& a.c3 == 2130706433 * q.c3 + c.c3
    &&& a.c4 == 2130706433 * q.c4 + c.c4
    &&& a.c5 == 2130706433 * q.c5 + c.c5
    &&& a.c6 == 2130706433 * q.c6 + c.c6
}

proof fn residue_is(a: int, q: int, c: int)
    requires
        a == 2130706433 * q + c,
        0 <= c < 2130706433,
    ensures
        reduce(a) == c,
{
    lemma_mod_multiples_vanish(q, c, order());
    lemma_small_mod(c as nat, order() as nat);
}

proof fn reduced_is(a: S7, q: S7, c: S7)
    requires
        reduces_to(a, q, c),
        c.canon(),
    ensures
        poly_reduce(a) == c,
{
    residue_is(a.c0, q.c0, c.c0);
    residue_is(a.c1, q.c1, c.c1);
    residue_is(a.c2, q.c2, c.c2);
    residue_is(a.c3, q.c3, c.c3);
    residue_is(a.c4, q.c4, c.c4);
    residue_is(a.c5, q.c5, c.c5);
    residue_is(a.c6, q.c6, c.c6);
}

proof fn product_is(a: S7, b: S7, q: S7, c: S7)
    requires
        reduces_to(poly_product(a, b), q, c),
        c.canon(),
    ensures
        a * b == c,
{
    reveal(S7::spec_mul);
    lemma_mul_formula(a, b);
    reduced_is(poly_product(a, b), q, c);
}

/// The power of the generator by `e` is `a`.
#[verifier::opaque]
spec fn gen_power(e: nat, a: S7) -> bool {
    s_pow(s_gen(), e) == a
}

proof fn square_is(e: nat, a: S7, q: S7, c: S7)
    requires
        gen_power(e, a),
        reduces_to(poly_product(a, a), q, c),
        c.canon(),
    ensures
        gen_power(2 * e, c),
{
    reveal(gen_power);
    pow_add(s_gen(), e, e);
    product_is(a, a, q, c);
}

proof fn next_is(e: nat, a: S7, q: S7, c: S7)
    requires
        gen_power(e, a),
        reduces_to(poly_product(a, s_gen()), q, c),
        c.canon(),
    ensures
        gen_power(e + 1, c),
{
    reveal(gen_power);
    product_is(a, s_gen(), q, c);
    assert(s_pow(s_gen(), e + 1) == s_pow(s_gen(), e) * s_gen());
}

proof fn powers_0()
    requires
        gen_power(1, S7 { c0: 0, c1: 1, c2: 0, c3: 0, c4: 0, c5: 0, c6: 0 }),
    ensures
        gen_power(6, S7 { c0: 0, c1: 0, c2: 0, c3: 0, c4: 0, c5: 0, c6: 1 }),
{
    square_is(1, S7 { c0: 0, c1: 1, c2: 0, c3: 0, c4: 0, c5: 0, c6: 0 }, S7 { c0: 0, c1: 0, c2: 0, c3: 0, c4: 0, c5: 0, c6: 0 }, S7 { c0: 0, c1: 0, c2: 1, c3: 0, c4: 0, c5: 0, c6: 0 });
    next_is(2, S7 { c0: 0, c1: 0, c2: 1, c3: 0, c4: 0, c5: 0, c6: 0 }, S7 { c0: 0, c1: 0, c2: 0, c3: 0, c4: 0, c5: 0, c6: 0 }, S7 { c0: 0, c1: 0, c2: 0, c3: 1, c4: 0, c5: 0, c6: 0 });
    square_is(3, S7 { c0: 0, c1: 0, c2: 0, c3: 1, c4: 0, c5: 0, c6: 0 }, S7 { c0: 0, c1: 0, c2: 0, c3: 0, c4: 0, c5: 0, c6: 0 }, S7 { c0: 0, c1: 0, c2: 0, c3: 0, c4: 0, c5: 0, c6: 1 });
}

proof fn powers_1()
    requires
        gen_power(6, S7 { c0: 0, c1: 0, c2: 0, c3: 0, c4: 0, c5: 0, c6: 1 }),
    ensures
        gen_power(15, S7 { c0: 0, c1: 64, c2: 2130706401, c3: 4, c4: 0, c5: 0, c6: 0 }),
{
    next_is(6, S7 { c0: 0, c1: 0, c2: 0, c3: 0, c4: 0, c5: 0, c6: 1 }, S7 { c0: 0, c1: -1, c2: 0, c3: 0, c4: 0, c5: 0, c6: 0 }, S7 { c0: 8, c1: 2130706431, c2: 0, c3: 0, c4: 0, c5: 0, c6: 0 });
    square_is(7, S7 { c0: 8, c1: 2130706431, c2: 0, c3: 0, c4: 0, c5: 0, c6: 0 }, S7 { c0: 0, c1: 15, c2: 2130706429, c3: 0, c4: 0, c5: 0, c6: 0 }, S7 { c0: 64, c1: 2130706401, c2: 4, c3: 0, c4: 0, c5: 0, c6: 0 });
    next_is(14, S7 { c0: 64, c1: 2130706401, c2: 4, c3: 0, c4: 0, c5: 0, c6: 0 }, S7 { c0: 0, c1: 0, c2: 0, c3: 0, c4: 0, c5: 0, c6: 0 }, S7 { c0: 0, c1: 64, c2: 2130706401, c3: 4, c4: 0, c5: 0, c6: 0 });
}

proof fn powers_2()
    requires
        gen_power(15, S7 { c0: 0, c1: 64, c2: 2130706401, c3: 4, c4: 0, c5: 0, c6: 0 }),
    ensures
        gen_power(62, S7 { c0: 1862418433, c1: 301948928, c2: 1954546689, c3: 66060288, c4: 2114191361, c5: 2752512, c6: 16482304 }),
{
    square_is(15, S7 { c0: 0, c1: 64, c2: 2130706401, c3: 4, c4: 0, c5: 0, c6: 0 }, S7 { c0: 0, c1: 0, c2: 0, c3: 127, c4: 2130706369, c5: 7, c6: 0 }, S7 { c0: 0, c1: 0, c2: 4096, c3: 2130702337, c4: 1536, c5: 2130706177, c6: 16 });
    next_is(30, S7 { c0: 0, c1: 0, c2: 4096, c3: 2130702337, c4: 1536, c5: 2130706177, c6: 16 }, S7 { c0: 0, c1: -1, c2: 0, c3: 0, c4: 0, c5: 0, c6: 0 }, S7 { c0: 128, c1: 2130706401, c2: 0, c3: 4096, c4: 2130702337, c5: 1536, c6: 2130706177 });
    square_is(31, S7 { c0: 128, c1: 2130706401, c2: 0, c3: 4096, c4: 2130702337, c5: 1536, c6: 2130706177 }, S7 { c0: 34091363855, c1: 8522745220, c2: -2130600002, c3: 34091210768, c4: -8522775301, c5: 21307045834, c6: -4261408514 }, S7 { c0: 1862418433, c1: 301948928, c2: 1954546689, c3: 66060288, c4: 2114191361, c5: 2752512, c6: 16482304 });
}

proof fn powers_3()
    requires
        gen_power(62, S7 { c0: 1862418433, c1: 301948928, c2: 1954546689, c3: 66060288, c4: 2114191361, c5: 2752512, c6: 16482304 }),
    ensures
        gen_power(127, S7 { c0: 1983761272, c1: 700700898, c2: 1855873807, c3: 312085434, c4: 923921791, c5: 1057787129, c6: 607409499 }),
{
    next_is(62, S7 { c0: 1862418433, c1: 301948928, c2: 1954546689, c3: 66060288, c4: 2114191361, c5: 2752512, c6: 16482304 }, S7 { c0: 0, c1: 0, c2: 0, c3: 0, c4: 0, c5: 0, c6: 0 }, S7 { c0: 131858432, c1: 1829453825, c2: 301948928, c3: 1954546689, c4: 66060288, c5: 2114191361, c6: 2752512 });
    square_is(63, S7 { c0: 131858432, c1: 1829453825, c2: 301948928, c3: 1954546689, c4: 66060288, c5: 2114191361, c6: 2752512 }, S7 { c0: 5809288256, c1: 29829127425, c2: -5065907133, c3: 17271935625, c4: -744883449, c5: 918186661, c6: 5442555540 }, S7 { c0: 1196641216, c1: 1855873807, c2: 312085434, c3: 923921791, c4: 1057787129, c5: 607409499, c6: 247970159 });
    next_is(126, S7 { c0: 1196641216, c1: 1855873807, c2: 312085434, c3: 923921791, c4: 1057787129, c5: 607409499, c6: 247970159 }, S7 { c0: 0, c1: 0, c2: 0, c3: 0, c4: 0, c5: 0, c6: 0 }, S7 { c0: 1983761272, c1: 700700898, c2: 1855873807, c3: 312085434, c4: 923921791, c5: 1057787129, c6: 607409499 });
}

proof fn powers_4()
    requires
        gen_power(127, S7 { c0: 1983761272, c1: 700700898, c2: 1855873807, c3: 312085434, c4: 923921791, c5: 1057787129, c6: 607409499 }),
    ensures
        gen_power(1016, S7 { c0: 1758863851, c1: 1739412983, c2: 262898681, c3: 633145621, c4: 1587283178, c5: 1652626080, c6: 1941636727 }),
{
    square_is(127, S7 { c0: 1983761272, c1: 700700898, c2: 1855873807, c3: 312085434, c4: 923921791, c5: 1057787129, c6: 607409499 }, S7 { c0: 21949761595, c1: 10428056189, c2: 8911306647, c3: 8026453813, c4: 6263106683, c5: 3300075876, c6: 3135657161 }, S7 { c0: 958657333, c1: 1227598991, c2: 716118863, c3: 1665824491, c4: 1764195096, c5: 469111504, c6: 894275455 });
    square_is(254, S7 { c0: 958657333, c1: 1227598991, c2: 716118863, c3: 1665824491, c4: 1764195096, c5: 469111504, c6: 894275455 }, S7 { c0: 33266184885, c1: 15258904017, c2: 13162188027, c3: 10647280669, c4: 3729595934, c5: 5789867715, c6: 3082841347 }, S7 { c0: 960399572, c1: 855840465, c2: 252622824, c3: 2026399647, c4: 653814813, c5: 1079769727, c6: 1797709434 });
    square_is(508, S7 { c0: 960399572, c1: 855840465, c2: 252622824, c3: 2026399647, c4: 653814813, c5: 1079769727, c6: 1797709434 }, S7 { c0: 23983519989, c1: 16329710261, c2: 27866606882, c3: 7069229975, c4: 13522617874, c5: 10469108810, c6: 1536755200 }, S7 { c0: 1758863851, c1: 1739412983, c2: 262898681, c3: 633145621, c4: 1587283178, c5: 1652626080, c6: 1941636727 });
}

proof fn powers_5()
    requires
        gen_power(1016, S7 { c0: 1758863851, c1: 1739412983, c2: 262898681, c3: 633145621, c4: 1587283178, c5: 1652626080, c6: 1941636727 }),
    ensures
        gen_power(8128, S7 { c0: 1640910354, c1: 257871304, c2: 157425518, c3: 1224528147, c4: 2051917639, c5: 689710398, c6: 797331520 }),
{
    square_is(1016, S7 { c0: 1758863851, c1: 1739412983, c2: 262898681, c3: 633145621, c4: 1587283178, c5: 1652626080, c6: 1941636727 }, S7 { c0: 37622172939, c1: 14979248232, c2: 25496046739, c3: 27639629270, c4: 19433031794, c5: 13607085326, c6: 2944987657 }, S7 { c0: 2097384158, c1: 1697997718, c2: 1669452240, c3: 1868516746, c4: 1073396937, c5: 1858637344, c6: 966114172 });
    square_is(2032, S7 { c0: 2097384158, c1: 1697997718, c2: 1669452240, c3: 1868516746, c4: 1073396937, c5: 1858637344, c6: 966114172 }, S7 { c0: 52744684102, c1: 33189215080, c2: 22547823234, c3: 19962894892, c4: 14693966579, c5: 8431472317, c6: 7308900137 }, S7 { c0: 529413726, c1: 309607232, c2: 1596809728, c3: 480050892, c4: 2061647601, c5: 1421687055, c6: 858370123 });
    square_is(4064, S7 { c0: 529413726, c1: 309607232, c2: 1596809728, c3: 480050892, c4: 2061647601, c5: 1421687055, c6: 858370123 }, S7 { c0: 26606270770, c1: 24911293520, c2: 18098477360, c3: 15304221161, c4: 6305096151, c5: 2500617850, c6: 3346384626 }, S7 { c0: 1640910354, c1: 257871304, c2: 157425518, c3: 1224528147, c4: 2051917639, c5: 689710398, c6: 797331520 });
}

proof fn powers_6()
    requires
        gen_power(8128, S7 { c0: 1640910354, c1: 257871304, c2: 157425518, c3: 1224528147, c4: 2051917639, c5: 689710398, c6: 797331520 }),
    ensures
        gen_power(65024, S7 { c0: 854908894, c1: 488506719, c2: 2098918889, c3: 1089432208, c4: 1238140161, c5: 1298727417, c6: 1354674624 }),
{
    square_is(8128, S7 { c0: 1640910354, c1: 257871304, c2: 157425518, c3: 1224528147, c4: 2051917639, c5: 689710398, c6: 797331520 }, S7 { c0: 22490978336, c1: 18183352420, c2: 12459430430, c3: 11506080069, c4: 4080130388, c5: 3094513696, c6: 1805248505 }, S7 { c0: 711540660, c1: 557025088, c2: 1449123056, c3: 361787807, c4: 1071995540, c5: 134191580, c6: 1789278292 });
    square_is(16256, S7 { c0: 711540660, c1: 557025088, c2: 1449123056, c3: 361787807, c4: 1071995540, c5: 134191580, c6: 1789278292 }, S7 { c0: 12094475582, c1: 21557708724, c2: 1017260890, c3: 13985086846, c4: 75952917, c5: 12711972969, c6: -220326750 }, S7 { c0: 1900239890, c1: 164358236, c2: 434992950, c3: 756541482, c4: 2087919147, c5: 170620119, c6: 1265741471 });
    square_is(32512, S7 { c0: 1900239890, c1: 164358236, c2: 434992950, c3: 756541482, c4: 2087919147, c5: 170620119, c6: 1265741471 }, S7 { c0: 15675800102, c1: 18269623337, c2: 5286478909, c3: 18904549684, c4: 562766649, c5: 6545209543, c6: 1901305002 }, S7 { c0: 854908894, c1: 488506719, c2: 2098918889, c3: 1089432208, c4: 1238140161, c5: 1298727417, c6: 1354674624 });
}

proof fn powers_7()
    requires
        gen_power(65024, S7 { c0: 854908894, c1: 488506719, c2: 2098918889, c3: 1089432208, c4: 1238140161, c5: 1298727417, c6: 1354674624 }),
    ensures
        gen_power(520192, S7 { c0: 1629576265, c1: 762744215, c2: 619245154, c3: 685164555, c4: 776829642, c5: 17216766, c6: 1329300044 }),
{
    square_is(65024, S7 { c0: 854908894, c1: 488506719, c2: 2098918889, c3: 1089432208, c4: 1238140161, c5: 1298727417, c6: 1354674624 }, S7 { c0: 35911021317, c1: 29231893890, c2: 15520598398, c3: 14975337388, c4: 12040138074, c5: 7343696271, c6: 2956394280 }, S7 { c0: 1276012687, c1: 1844546694, c2: 1085301293, c3: 1556520102, c4: 1706536945, c5: 1533385771, c6: 1208512888 });
    square_is(130048, S7 { c0: 1276012687, c1: 1844546694, c2: 1085301293, c3: 1556520102, c4: 1706536945, c5: 1533385771, c6: 1208512888 }, S7 { c0: 49946748120, c1: 28619900666, c2: 26995653189, c3: 19614511568, c4: 13128502414, c5: 8381709078, c6: 5607023197 }, S7 { c0: 255305049, c1: 1725168334, c2: 1385022763, c3: 1693635292, c4: 843319439, c5: 12395772, c6: 1130705045 });
    square_is(260096, S7 { c0: 255305049, c1: 1725168334, c2: 1385022763, c3: 1693635292, c4: 843319439, c5: 12395772, c6: 1130705045 }, S7 { c0: 25532747400, c1: 8625649061, c2: 12540508202, c3: 6194995985, c4: 2159975329, c5: 8344368478, c6: 1533559430 }, S7 { c0: 1629576265, c1: 762744215, c2: 619245154, c3: 685164555, c4: 776829642, c5: 17216766, c6: 1329300044 });
}

proof fn powers_8()
    requires
        gen_power(520192, S7 { c0: 1629576265, c1: 762744215, c2: 619245154, c3: 685164555, c4: 776829642, c5: 17216766, c6: 1329300044 }),
    ensures
        gen_power(4161536, S7 { c0: 179008692, c1: 1639286815, c2: 1702383367, c3: 217301671, c4: 255828432, c5: 1853098900, c6: 144583034 }),
{
    square_is(520192, S7 { c0: 1629576265, c1: 762744215, c2: 619245154, c3: 685164555, c4: 776829642, c5: 17216766, c6: 1329300044 }, S7 { c0: 12936955383, c1: 6779734126, c2: 6026099572, c3: 7511902140, c4: 91758242, c5: 7572366597, c6: 1058862347 }, S7 { c0: 579859130, c1: 1883574264, c2: 1861690289, c3: 692660998, c4: 238194600, c5: 1531639151, c6: 508004338 });
    square_is(1040384, S7 { c0: 579859130, c1: 1883574264, c2: 1861690289, c3: 692660998, c4: 238194600, c5: 1531639151, c6: 508004338 }, S7 { c0: 29994217627, c1: 8847584391, c2: 4239931151, c3: 12039741058, c4: 6394547271, c5: 1973455703, c6: 3383659784 }, S7 { c0: 1277825145, c1: 757064733, c2: 469081717, c3: 995869470, c4: 1020207928, c5: 961803305, c6: 1923639452 });
    square_is(2080768, S7 { c0: 1277825145, c1: 757064733, c2: 469081717, c3: 995869470, c4: 1020207928, c5: 961803305, c6: 1923639452 }, S7 { c0: 22719452173, c1: 13296186119, c2: 18116310516, c3: 14299638719, c4: 11375397251, c5: 12737328090, c6: 432037340 }, S7 { c0: 179008692, c1: 1639286815, c2: 1702383367, c3: 217301671, c4: 255828432, c5: 1853098900, c6: 144583034 });
}

proof fn powers_9()
    requires
        gen_power(4161536, S7 { c0: 179008692, c1: 1639286815, c2: 1702383367, c3: 217301671, c4: 255828432, c5: 1853098900, c6: 144583034 }),
    ensures
        gen_power(33292288, S7 { c0: 1929794872, c1: 1980285871, c2: 818826043, c3: 132473026, c4: 1473509868, c5: 381764358, c6: 157047993 }),
{
    square_is(4161536, S7 { c0: 179008692, c1: 1639286815, c2: 1702383367, c3: 217301671, c4: 255828432, c5: 1853098900, c6: 144583034 }, S7 { c0: 25901587983, c1: -1078329922, c2: 4063664035, c3: 14878085453, c4: 456684871, c5: 627764968, c6: 3287046944 }, S7 { c0: 922802337, c1: 123315698, c2: 1395866062, c3: 1860786277, c4: 352270012, c5: 1073409978, c6: 1434762321 });
    square_is(8323072, S7 { c0: 922802337, c1: 123315698, c2: 1395866062, c3: 1860786277, c4: 352270012, c5: 1073409978, c6: 1434762321 }, S7 { c0: 17901948031, c1: 26235077688, c2: 16477823227, c3: 4172948023, c4: 10969516654, c5: 8246456877, c6: 1521384569 }, S7 { c0: 2030190434, c1: 170967556, c2: 1124812629, c3: 1980584183, c4: 110572074, c5: 1872907107, c6: 807097400 });
    square_is(16646144, S7 { c0: 2030190434, c1: 170967556, c2: 1124812629, c3: 1980584183, c4: 110572074, c5: 1872907107, c6: 807097400 }, S7 { c0: 20434604188, c1: 30418982717, c2: 7036473869, c3: 14405646642, c4: 9013331291, c5: 5285980540, c6: 3184944884 }, S7 { c0: 1929794872, c1: 1980285871, c2: 818826043, c3: 132473026, c4: 1473509868, c5: 381764358, c6: 157047993 });
}

proof fn powers_10()
    requires
        gen_power(33292288, S7 { c0: 1929794872, c1: 1980285871, c2: 818826043, c3: 132473026, c4: 1473509868, c5: 381764358, c6: 157047993 }),
    ensures
        gen_power(266338304, S7 { c0: 1551124671, c1: 1500189630, c2: 1861424840, c3: 697040927, c4: 1858507636, c5: 1419045545, c6: 391280139 }),
{
    square_is(33292288, S7 { c0: 1929794872, c1: 1980285871, c2: 818826043, c3: 132473026, c4: 1473509868, c5: 381764358, c6: 157047993 }, S7 { c0: 7896390271, c1: 11547551292, c2: 5329752973, c3: 2951837247, c4: 3109033972, c5: 3512370934, c6: 2111723768 }, S7 { c0: 598428881, c1: 539877632, c2: 914390440, c3: 1454062147, c4: 1454172937, c5: 683398638, c6: 1778281110 });
    square_is(66584576, S7 { c0: 598428881, c1: 539877632, c2: 914390440, c3: 1454062147, c4: 1454172937, c5: 683398638, c6: 1778281110 }, S7 { c0: 27947820209, c1: 20970249158, c2: 20626873845, c3: 15732200619, c4: 5778927060, c5: 11960546324, c6: 617328499 }, S7 { c0: 1095328, c1: 1044028982, c2: 1158636753, c3: 512278715, c4: 409055934, c5: 1188809672, c6: 590502154 });
    square_is(133169152, S7 { c0: 1095328, c1: 1044028982, c2: 1158636753, c3: 512278715, c4: 409055934, c5: 1188809672, c6: 590502154 }, S7 { c0: 16546254369, c1: 6203561802, c2: 3851222700, c3: 6775302037, c4: 4623906401, c5: 950572213, c6: 1406357730 }, S7 { c0: 1551124671, c1: 1500189630, c2: 1861424840, c3: 697040927, c4: 1858507636, c5: 1419045545, c6: 391280139 });
}

proof fn powers_11()
    requires
        gen_power(266338304, S7 { c0: 1551124671, c1: 1500189630, c2: 1861424840, c3: 697040927, c4: 1858507636, c5: 1419045545, c6: 391280139 }),
    ensures
        gen_power(2130706432, S7 { c0: 989941215, c1: 856916903, c2: 802055410, c3: 1274370027, c4: 839777993, c5: 1763169463, c6: 1138788611 }),
{
    square_is(266338304, S7 { c0: 1551124671, c1: 1500189630, c2: 1861424840, c3: 697040927, c4: 1858507636, c5: 1419045545, c6: 391280139 }, S7 { c0: 35100254680, c1: 19557045171, c2: 19152291219, c3: 11194348480, c4: 6227786169, c5: 5433532800, c6: 5899514592 }, S7 { c0: 1428340873, c1: 1423814217, c2: 1090059029, c3: 2080783366, c4: 320882369, c5: 29813258, c6: 733502069 });
    square_is(532676608, S7 { c0: 1428340873, c1: 1423814217, c2: 1090059029, c3: 2080783366, c4: 320882369, c5: 29813258, c6: 733502069 }, S7 { c0: 14057800962, c1: 5490391959, c2: 12231667662, c3: 3134131374, c4: 3490309810, c5: 4576887704, c6: 2878598970 }, S7 { c0: 1368141727, c1: 1664404751, c2: 1084263335, c3: 371348744, c4: 1378238089, c5: 934014890, c6: 1868784272 });
    square_is(1065353216, S7 { c0: 1368141727, c1: 1664404751, c2: 1084263335, c3: 371348744, c4: 1378238089, c5: 934014890, c6: 1868784272 }, S7 { c0: 35683389634, c1: 18388475659, c2: 11332328799, c3: 21067897295, c4: 10354921278, c5: 13566321779, c6: 2048436935 }, S7 { c0: 989941215, c1: 856916903, c2: 802055410, c3: 1274370027, c4: 839777993, c5: 1763169463, c6: 1138788611 });
}

proof fn powers_12()
    requires
        gen_power(2130706432, S7 { c0: 989941215, c1: 856916903, c2: 802055410, c3: 1274370027, c4: 839777993, c5: 1763169463, c6: 1138788611 }),
    ensures
        gen_power(2130706433, S7 { c0: 587483156, c1: 843070426, c2: 856916903, c3: 802055410, c4: 1274370027, c5: 839777993, c6: 1763169463 }),
{
    next_is(2130706432, S7 { c0: 989941215, c1: 856916903, c2: 802055410, c3: 1274370027, c4: 839777993, c5: 1763169463, c6: 1138788611 }, S7 { c0: 4, c1: -1, c2: 0, c3: 0, c4: 0, c5: 0, c6: 0 }, S7 { c0: 587483156, c1: 843070426, c2: 856916903, c3: 802055410, c4: 1274370027, c5: 839777993, c6: 1763169463 });
}

proof fn first_power()
    ensures
        gen_power(1, S7 { c0: 0, c1: 1, c2: 0, c3: 0, c4: 0, c5: 0, c6: 0 }),
{
    reveal(gen_power);
    reveal_with_fuel(s_pow, 2);
    mul_one(s_gen());
}

/// The image of the generator, written out.
pub proof fn image_of_generator()
    ensures
        frob_gen() == (S7 { c0: 587483156, c1: 843070426, c2: 856916903, c3: 802055410, c4: 1274370027, c5: 839777993, c6: 1763169463 }),
{
    first_power();
    powers_0();
    powers_1();
    powers_2();
    powers_3();
    powers_4();
    powers_5();
    powers_6();
    powers_7();
    powers_8();
    powers_9();
    powers_10();
    powers_11();
    powers_12();
    reveal(gen_power);
}

/// Row `k` of the matrix of the map: a power of the image of the generator.
spec fn image_row(k: nat) -> S7 {
    if k == 0 {
        s_one()
    } else if k == 1 {
        S7 { c0: 587483156, c1: 843070426, c2: 856916903, c3: 802055410, c4: 1274370027, c5: 839777993, c6: 1763169463 }
    } else if k == 2 {
        S7 { c0: 1211185764, c1: 536911287, c2: 1786731555, c3: 1891857573, c4: 591969516, c5: 550155966, c6: 706525029 }
    } else if k == 3 {
        S7 { c0: 926148950, c1: 97341948, c2: 1328592391, c3: 2024338901, c4: 1053611575, c5: 858809194, c6: 895371293 }
    } else if k == 4 {
        S7 { c0: 1525385643, c1: 1541060576, c2: 1544460289, c3: 1695665723, c4: 1260084848, c5: 209013872, c6: 1422484900 }
    } else if k == 5 {
        S7 { c0: 636881039, c1: 1369380874, c2: 1823056783, c3: 411001166, c4: 474370133, c5: 1991878855, c6: 193955070 }
    } else {
        S7 { c0: 448462982, c1: 1809047550, c2: 1873051132, c3: 1563342685, c4: 638206204, c5: 1034022669, c6: 616721146 }
    }
}

proof fn row_2()
    ensures
        (S7 { c0: 587483156, c1: 843070426, c2: 856916903, c3: 802055410, c4: 1274370027, c5: 839777993, c6: 1763169463 }) * (S7 { c0: 587483156, c1: 843070426, c2: 856916903, c3: 802055410, c4: 1274370027, c5: 839777993, c6: 1763169463 }) == (S7 { c0: 1211185764, c1: 536911287, c2: 1786731555, c3: 1891857573, c4: 591969516, c5: 550155966, c6: 706525029 }),
{
    product_is(S7 { c0: 587483156, c1: 843070426, c2: 856916903, c3: 802055410, c4: 1274370027, c5: 839777993, c6: 1763169463 }, S7 { c0: 587483156, c1: 843070426, c2: 856916903, c3: 802055410, c4: 1274370027, c5: 839777993, c6: 1763169463 }, S7 { c0: 24403417308, c1: 16905612261, c2: 13836437163, c3: 15977134059, c4: 7920652863, c5: 11009267310, c6: 45743939 }, S7 { c0: 1211185764, c1: 536911287, c2: 1786731555, c3: 1891857573, c4: 591969516, c5: 550155966, c6: 706525029 });
}

proof fn row_3()
    ensures
        (S7 { c0: 1211185764, c1: 536911287, c2: 1786731555, c3: 1891857573, c4: 591969516, c5: 550155966, c6: 706525029 }) * (S7 { c0: 587483156, c1: 843070426, c2: 856916903, c3: 802055410, c4: 1274370027, c5: 839777993, c6: 1763169463 }) == (S7 { c0: 926148950, c1: 97341948, c2: 1328592391, c3: 2024338901, c4: 1053611575, c5: 858809194, c6: 895371293 }),
{
    product_is(S7 { c0: 1211185764, c1: 536911287, c2: 1786731555, c3: 1891857573, c4: 591969516, c5: 550155966, c6: 706525029 }, S7 { c0: 587483156, c1: 843070426, c2: 856916903, c3: 802055410, c4: 1274370027, c5: 839777993, c6: 1763169463 }, S7 { c0: 24363279602, c1: 19175660418, c2: 14203956853, c3: 6146872904, c4: 6168114208, c5: 5827623418, c6: 2475919463 }, S7 { c0: 926148950, c1: 97341948, c2: 1328592391, c3: 2024338901, c4: 1053611575, c5: 858809194, c6: 895371293 });
}

proof fn row_4()
    ensures
        (S7 { c0: 926148950, c1: 97341948, c2: 1328592391, c3: 2024338901, c4: 1053611575, c5: 858809194, c6: 895371293 }) * (S7 { c0: 587483156, c1: 843070426, c2: 856916903, c3: 802055410, c4: 1274370027, c5: 839777993, c6: 1763169463 }) == (S7 { c0: 1525385643, c1: 1541060576, c2: 1544460289, c3: 1695665723, c4: 1260084848, c5: 209013872, c6: 1422484900 }),
{
    product_is(S7 { c0: 926148950, c1: 97341948, c2: 1328592391, c3: 2024338901, c4: 1053611575, c5: 858809194, c6: 895371293 }, S7 { c0: 587483156, c1: 843070426, c2: 856916903, c3: 802055410, c4: 1274370027, c5: 839777993, c6: 1763169463 }, S7 { c0: 23545114893, c1: 20257327068, c2: 17884531161, c3: 9556385035, c4: 7233140221, c5: 6191449307, c6: 1889974380 }, S7 { c0: 1525385643, c1: 1541060576, c2: 1544460289, c3: 1695665723, c4: 1260084848, c5: 209013872, c6: 1422484900 });
}

proof fn row_5()
    ensures
        (S7 { c0: 1525385643, c1: 1541060576, c2: 1544460289, c3: 1695665723, c4: 1260084848, c5: 209013872, c6: 1422484900 }) * (S7 { c0: 587483156, c1: 843070426, c2: 856916903, c3: 802055410, c4: 1274370027, c5: 839777993, c6: 1763169463 }) == (S7 { c0: 636881039, c1: 1369380874, c2: 1823056783, c3: 411001166, c4: 474370133, c5: 1991878855, c6: 193955070 }),
{
    product_is(S7 { c0: 1525385643, c1: 1541060576, c2: 1544460289, c3: 1695665723, c4: 1260084848, c5: 209013872, c6: 1422484900 }, S7 { c0: 587483156, c1: 843070426, c2: 856916903, c3: 802055410, c4: 1274370027, c5: 839777993, c6: 1763169463 }, S7 { c0: 32575479325, c1: 19796001904, c2: 15429769486, c3: 12959162980, c4: 5049004433, c5: 11292144611, c6: 2059137432 }, S7 { c0: 636881039, c1: 1369380874, c2: 1823056783, c3: 411001166, c4: 474370133, c5: 1991878855, c6: 193955070 });
}

proof fn row_6()
    ensures
        (S7 { c0: 636881039, c1: 1369380874, c2: 1823056783, c3: 411001166, c4: 474370133, c5: 1991878855, c6: 193955070 }) * (S7 { c0: 587483156, c1: 843070426, c2: 856916903, c3: 802055410, c4: 1274370027, c5: 839777993, c6: 1763169463 }) == (S7 { c0: 448462982, c1: 1809047550, c2: 1873051132, c3: 1563342685, c4: 638206204, c5: 1034022669, c6: 616721146 }),
{
    product_is(S7 { c0: 636881039, c1: 1369380874, c2: 1823056783, c3: 411001166, c4: 474370133, c5: 1991878855, c6: 193955070 }, S7 { c0: 587483156, c1: 843070426, c2: 856916903, c3: 802055410, c4: 1274370027, c5: 839777993, c6: 1763169463 }, S7 { c0: 25406838422, c1: 16578532612, c2: 10067769249, c3: 8391172613, c4: 13133638198, c5: 493006744, c6: 3023215031 }, S7 { c0: 448462982, c1: 1809047550, c2: 1873051132, c3: 1563342685, c4: 638206204, c5: 1034022669, c6: 616721146 });
}

proof fn rows_are_powers(k: nat)
    requires
        k <= 6,
    ensures
        s_pow(frob_gen(), k) == image_row(k),
    decreases k,
{
    image_of_generator();
    let w = frob_gen();
    if k > 0 {
        rows_are_powers((k - 1) as nat);
        assert(s_pow(w, k) == s_pow(w, (k - 1) as nat) * w);
        if k == 1 {
            mul_one(w);
        }
        row_2();
        row_3();
        row_4();
        row_5();
        row_6();
    }
}

/// The image of an element, written out and not reduced.
spec fn raw_image(x: S7) -> S7 {
    S7 {
        c0: x.c0 * 1 + x.c1 * 587483156 + x.c2 * 1211185764 + x.c3 * 926148950 + x.c4 * 1525385643 + x.c5 * 636881039 + x.c6 * 448462982,
        c1: x.c0 * 0 + x.c1 * 843070426 + x.c2 * 536911287 + x.c3 * 97341948 + x.c4 * 1541060576 + x.c5 * 1369380874 + x.c6 * 1809047550,
        c2: x.c0 * 0 + x.c1 * 856916903 + x.c2 * 1786731555 + x.c3 * 1328592391 + x.c4 * 1544460289 + x.c5 * 1823056783 + x.c6 * 1873051132,
        c3: x.c0 * 0 + x.c1 * 802055410 + x.c2 * 1891857573 + x.c3 * 2024338901 + x.c4 * 1695665723 + x.c5 * 411001166 + x.c6 * 1563342685,
        c4: x.c0 * 0 + x.c1 * 1274370027 + x.c2 * 591969516 + x.c3 * 1053611575 + x.c4 * 1260084848 + x.c5 * 474370133 + x.c6 * 638206204,
        c5: x.c0 * 0 + x.c1 * 839777993 + x.c2 * 550155966 + x.c3 * 858809194 + x.c4 * 209013872 + x.c5 * 1991878855 + x.c6 * 1034022669,
        c6: x.c0 * 0 + x.c1 * 1763169463 + x.c2 * 706525029 + x.c3 * 895371293 + x.c4 * 1422484900 + x.c5 * 193955070 + x.c6 * 616721146,
    }
}

/// The sum of the first `k` rows of the matrix of the map, weighted by the coefficients of an
/// element and not reduced.
spec fn partial(x: S7, k: nat) -> S7
    decreases k,
{
    if k == 0 {
        s_zero()
    } else {
        add_row(partial(x, (k - 1) as nat), coeff(x, k - 1), image_row((k - 1) as nat))
    }
}

/// A sum with one more row, weighted.
spec fn add_row(t: S7, c: int, v: S7) -> S7 {
    S7 {
        c0: t.c0 + c * v.c0,
        c1: t.c1 + c * v.c1,
        c2: t.c2 + c * v.c2,
        c3: t.c3 + c * v.c3,
        c4: t.c4 + c * v.c4,
        c5: t.c5 + c * v.c5,
        c6: t.c6 + c * v.c6,
    }
}

proof fn add_scaled(s: S7, t: S7, c: int, v: S7)
    requires
        s == poly_reduce(t),
    ensures
        s + s_embed(c) * v == poly_reduce(add_row(t, c, v)),
{
    embed_mul(c, v);
    reveal(S7::spec_add);
    vstd::arithmetic::div_mod::lemma_add_mod_noop(t.c0, c * v.c0, order());
    vstd::arithmetic::div_mod::lemma_add_mod_noop(t.c1, c * v.c1, order());
    vstd::arithmetic::div_mod::lemma_add_mod_noop(t.c2, c * v.c2, order());
    vstd::arithmetic::div_mod::lemma_add_mod_noop(t.c3, c * v.c3, order());
    vstd::arithmetic::div_mod::lemma_add_mod_noop(t.c4, c * v.c4, order());
    vstd::arithmetic::div_mod::lemma_add_mod_noop(t.c5, c * v.c5, order());
    vstd::arithmetic::div_mod::lemma_add_mod_noop(t.c6, c * v.c6, order());
}

proof fn frob_part_is_partial(x: S7, k: nat)
    requires
        k <= 7,
    ensures
        frob_part(x, k) == poly_reduce(partial(x, k)),
    decreases k,
{
    if k == 0 {
        lemma_reduce_canon(s_zero());
    } else {
        let j = (k - 1) as nat;
        frob_part_is_partial(x, j);
        rows_are_powers(j);
        add_scaled(frob_part(x, j), partial(x, j), coeff(x, k - 1), image_row(j));
    }
}

proof fn partial_is_raw(x: S7)
    ensures
        partial(x, 7) == raw_image(x),
{
    reveal_with_fuel(partial, 8);
}

proof fn frob_is_image(x: S7)
    ensures
        frob(x) == poly_reduce(raw_image(x)),
{
    frob_part_is_partial(x, 7);
    partial_is_raw(x);
}

proof fn image_is(a: S7, q: S7, b: S7)
    requires
        reduces_to(raw_image(a), q, b),
        b.canon(),
    ensures
        frob(a) == b,
{
    frob_is_image(a);
    reduced_is(raw_image(a), q, b);
}

proof fn image_0()
    ensures
        frob(S7 { c0: 0, c1: 1, c2: 0, c3: 0, c4: 0, c5: 0, c6: 0 }) == (S7 { c0: 587483156, c1: 843070426, c2: 856916903, c3: 802055410, c4: 1274370027, c5: 839777993, c6: 1763169463 }),
{
    image_is(S7 { c0: 0, c1: 1, c2: 0, c3: 0, c4: 0, c5: 0, c6: 0 }, S7 { c0: 0, c1: 0, c2: 0, c3: 0, c4: 0, c5: 0, c6: 0 }, S7 { c0: 587483156, c1: 843070426, c2: 856916903, c3: 802055410, c4: 1274370027, c5: 839777993, c6: 1763169463 });
}

proof fn image_1()
    ensures
        frob(S7 { c0: 587483156, c1: 843070426, c2: 856916903, c3: 802055410, c4: 1274370027, c5: 839777993, c6: 1763169463 }) == (S7 { c0: 850855402, c1: 83752463, c2: 578907183, c3: 1077461187, c4: 841195559, c5: 707516819, c6: 141214579 }),
{
    image_is(S7 { c0: 587483156, c1: 843070426, c2: 856916903, c3: 802055410, c4: 1274370027, c5: 839777993, c6: 1763169463 }, S7 { c0: 2602638532, c1: 3544572986, c2: 4749978576, c3: 4310063152, c4: 2607657626, c5: 2642549271, c6: 2756401248 }, S7 { c0: 850855402, c1: 83752463, c2: 578907183, c3: 1077461187, c4: 841195559, c5: 707516819, c6: 141214579 });
}

proof fn image_2()
    ensures
        frob(S7 { c0: 850855402, c1: 83752463, c2: 578907183, c3: 1077461187, c4: 841195559, c5: 707516819, c6: 141214579 }) == (S7 { c0: 1996121346, c1: 112849387, c2: 2056262381, c3: 184311178, c4: 496842357, c5: 1409948961, c6: 99050902 }),
{
    image_is(S7 { c0: 850855402, c1: 83752463, c2: 578907183, c3: 1077461187, c4: 841195559, c5: 707516819, c6: 141214579 }, S7 { c0: 1663926094, c1: 1411255136, c2: 2530224662, c3: 2478743228, c4: 1441014684, c5: 1429237106, c6: 1380910313 }, S7 { c0: 1996121346, c1: 112849387, c2: 2056262381, c3: 184311178, c4: 496842357, c5: 1409948961, c6: 99050902 });
}

proof fn image_3()
    ensures
        frob(S7 { c0: 1996121346, c1: 112849387, c2: 2056262381, c3: 184311178, c4: 496842357, c5: 1409948961, c6: 99050902 }) == (S7 { c0: 1849031229, c1: 2045788196, c2: 114036945, c3: 510719561, c4: 1907586091, c5: 654419237, c6: 545924942 }),
{
    image_is(S7 { c0: 1996121346, c1: 112849387, c2: 2056262381, c3: 184311178, c4: 496842357, c5: 1409948961, c6: 99050902 }, S7 { c0: 2078080299, c1: 1920828091, c2: 3538199093, c3: 2783393779, c4: 1367323517, c5: 2064590813, c6: 1341388288 }, S7 { c0: 1849031229, c1: 2045788196, c2: 114036945, c3: 510719561, c4: 1907586091, c5: 654419237, c6: 545924942 });
}

proof fn image_4()
    ensures
        frob(S7 { c0: 1849031229, c1: 2045788196, c2: 114036945, c3: 510719561, c4: 1907586091, c5: 654419237, c6: 545924942 }) == (S7 { c0: 1955727694, c1: 598360662, c2: 155622644, c3: 1724031024, c4: 1168748548, c5: 1584518292, c6: 785723416 }),
{
    image_is(S7 { c0: 1849031229, c1: 2045788196, c2: 114036945, c3: 510719561, c4: 1907586091, c5: 654419237, c6: 545924942 }, S7 { c0: 2527052577, c1: 3125322507, c2: 3659416248, c3: 3401458639, c4: 2945158212, c5: 2105447825, c6: 3436441804 }, S7 { c0: 1955727694, c1: 598360662, c2: 155622644, c3: 1724031024, c4: 1168748548, c5: 1584518292, c6: 785723416 });
}

proof fn image_5()
    ensures
        frob(S7 { c0: 1955727694, c1: 598360662, c2: 155622644, c3: 1724031024, c4: 1168748548, c5: 1584518292, c6: 785723416 }) == (S7 { c0: 1283606905, c1: 577591731, c2: 499666810, c3: 2093540939, c4: 703376717, c5: 1195937997, c6: 926329564 }),
{
    image_is(S7 { c0: 1955727694, c1: 598360662, c2: 155622644, c3: 1724031024, c4: 1168748548, c5: 1584518292, c6: 785723416 }, S7 { c0: 2478536677, c1: 2885507149, c2: 4339775900, c3: 3813645041, c4: 2532934505, c5: 2948144053, c6: 2423156522 }, S7 { c0: 1283606905, c1: 577591731, c2: 499666810, c3: 2093540939, c4: 703376717, c5: 1195937997, c6: 926329564 });
}

proof fn image_6()
    ensures
        frob(S7 { c0: 1283606905, c1: 577591731, c2: 499666810, c3: 2093540939, c4: 703376717, c5: 1195937997, c6: 926329564 }) == (S7 { c0: 0, c1: 1, c2: 0, c3: 0, c4: 0, c5: 0, c6: 0 }),
{
    image_is(S7 { c0: 1283606905, c1: 577591731, c2: 499666810, c3: 2093540939, c4: 703376717, c5: 1195937997, c6: 926329564 }, S7 { c0: 2409276521, c1: 2513922849, c2: 4304133088, c3: 4120224864, c4: 2479202615, c5: 2837049948, c6: 2369966888 }, S7 { c0: 0, c1: 1, c2: 0, c3: 0, c4: 0, c5: 0, c6: 0 });
}

/// The generator comes back after seven times.
proof fn generator_comes_back()
    ensures
        frob(frob(frob(frob(frob(frob(frob(s_gen()))))))) == s_gen(),
{
    image_0();
    image_1();
    image_2();
    image_3();
    image_4();
    image_5();
    image_6();
}

proof fn kept_1(x0: int, x1: int, x2: int, x3: int, x4: int, x5: int, x6: int, q0: int, q1: int, q2: int, q3: int, q4: int, q5: int, q6: int) -> (m: int)
    requires
        x0 * 1 + x1 * 587483156 + x2 * 1211185764 + x3 * 926148950 + x4 * 1525385643 + x5 * 636881039 + x6 * 448462982 == 2130706433 * q0 + x0,
        x0 * 0 + x1 * 843070426 + x2 * 536911287 + x3 * 97341948 + x4 * 1541060576 + x5 * 1369380874 + x6 * 1809047550 == 2130706433 * q1 + x1,
        x0 * 0 + x1 * 856916903 + x2 * 1786731555 + x3 * 1328592391 + x4 * 1544460289 + x5 * 1823056783 + x6 * 1873051132 == 2130706433 * q2 + x2,
        x0 * 0 + x1 * 802055410 + x2 * 1891857573 + x3 * 2024338901 + x4 * 1695665723 + x5 * 411001166 + x6 * 1563342685 == 2130706433 * q3 + x3,
        x0 * 0 + x1 * 1274370027 + x2 * 591969516 + x3 * 1053611575 + x4 * 1260084848 + x5 * 474370133 + x6 * 638206204 == 2130706433 * q4 + x4,
        x0 * 0 + x1 * 839777993 + x2 * 550155966 + x3 * 858809194 + x4 * 209013872 + x5 * 1991878855 + x6 * 1034022669 == 2130706433 * q5 + x5,
    ensures
        x1 == 2130706433 * m,
{
    (1279545634 * q0 + 1066686323 * q1 + 1448309209 * q2 + 2003542510 * q3 + 1990013129 * q4 + 940573046 * q5) - (3672454102 * x1 + 4785328021 * x2 + 4774669234 * x3 + 5600959952 * x4 + 4016009272 * x5 + 4970702802 * x6)
}

proof fn kept_2(x0: int, x1: int, x2: int, x3: int, x4: int, x5: int, x6: int, q0: int, q1: int, q2: int, q3: int, q4: int, q5: int, q6: int) -> (m: int)
    requires
        x0 * 1 + x1 * 587483156 + x2 * 1211185764 + x3 * 926148950 + x4 * 1525385643 + x5 * 636881039 + x6 * 448462982 == 2130706433 * q0 + x0,
        x0 * 0 + x1 * 843070426 + x2 * 536911287 + x3 * 97341948 + x4 * 1541060576 + x5 * 1369380874 + x6 * 1809047550 == 2130706433 * q1 + x1,
        x0 * 0 + x1 * 856916903 + x2 * 1786731555 + x3 * 1328592391 + x4 * 1544460289 + x5 * 1823056783 + x6 * 1873051132 == 2130706433 * q2 + x2,
        x0 * 0 + x1 * 802055410 + x2 * 1891857573 + x3 * 2024338901 + x4 * 1695665723 + x5 * 411001166 + x6 * 1563342685 == 2130706433 * q3 + x3,
        x0 * 0 + x1 * 1274370027 + x2 * 591969516 + x3 * 1053611575 + x4 * 1260084848 + x5 * 474370133 + x6 * 638206204 == 2130706433 * q4 + x4,
        x0 * 0 + x1 * 839777993 + x2 * 550155966 + x3 * 858809194 + x4 * 209013872 + x5 * 1991878855 + x6 * 1034022669 == 2130706433 * q5 + x5,
    ensures
        x2 == 2130706433 * m,
{
    (1664738566 * q0 + 1773682896 * q1 + 935457924 * q2 + 224492634 * q3 + 220599139 * q4 + 201551367 * q5) - (1832910424 * x1 + 2490352903 * x2 + 1791547155 * x3 + 3481598273 * x4 + 2718750443 * x5 + 3007249653 * x6)
}

proof fn kept_3(x0: int, x1: int, x2: int, x3: int, x4: int, x5: int, x6: int, q0: int, q1: int, q2: int, q3: int, q4: int, q5: int, q6: int) -> (m: int)
    requires
        x0 * 1 + x1 * 587483156 + x2 * 1211185764 + x3 * 926148950 + x4 * 1525385643 + x5 * 636881039 + x6 * 448462982 == 2130706433 * q0 + x0,
        x0 * 0 + x1 * 843070426 + x2 * 536911287 + x3 * 97341948 + x4 * 1541060576 + x5 * 1369380874 + x6 * 1809047550 == 2130706433 * q1 + x1,
        x0 * 0 + x1 * 856916903 + x2 * 1786731555 + x3 * 1328592391 + x4 * 1544460289 + x5 * 1823056783 + x6 * 1873051132 == 2130706433 * q2 + x2,
        x0 * 0 + x1 * 802055410 + x2 * 1891857573 + x3 * 2024338901 + x4 * 1695665723 + x5 * 411001166 + x6 * 1563342685 == 2130706433 * q3 + x3,
        x0 * 0 + x1 * 1274370027 + x2 * 591969516 + x3 * 1053611575 + x4 * 1260084848 + x5 * 474370133 + x6 * 638206204 == 2130706433 * q4 + x4,
        x0 * 0 + x1 * 839777993 + x2 * 550155966 + x3 * 858809194 + x4 * 209013872 + x5 * 1991878855 + x6 * 1034022669 == 2130706433 * q5 + x5,
    ensures
        x3 == 2130706433 * m,
{
    (1192678825 * q0 + 470917079 * q1 + 1379379689 * q2 + 1509915267 * q3 + 503851194 * q4 + 857795091 * q5) - (2277739761 * x1 + 3655457960 * x2 + 3429471768 * x3 + 3778043667 * x4 + 3044698962 * x5 + 3538492106 * x6)
}

proof fn kept_4(x0: int, x1: int, x2: int, x3: int, x4: int, x5: int, x6: int, q0: int, q1: int, q2: int, q3: int, q4: int, q5: int, q6: int) -> (m: int)
    requires
        x0 * 1 + x1 * 587483156 + x2 * 1211185764 + x3 * 926148950 + x4 * 1525385643 + x5 * 636881039 + x6 * 448462982 == 2130706433 * q0 + x0,
        x0 * 0 + x1 * 843070426 + x2 * 536911287 + x3 * 97341948 + x4 * 1541060576 + x5 * 1369380874 + x6 * 1809047550 == 2130706433 * q1 + x1,
        x0 * 0 + x1 * 856916903 + x2 * 1786731555 + x3 * 1328592391 + x4 * 1544460289 + x5 * 1823056783 + x6 * 1873051132 == 2130706433 * q2 + x2,
        x0 * 0 + x1 * 802055410 + x2 * 1891857573 + x3 * 2024338901 + x4 * 1695665723 + x5 * 411001166 + x6 * 1563342685 == 2130706433 * q3 + x3,
        x0 * 0 + x1 * 1274370027 + x2 * 591969516 + x3 * 1053611575 + x4 * 1260084848 + x5 * 474370133 + x6 * 638206204 == 2130706433 * q4 + x4,
        x0 * 0 + x1 * 839777993 + x2 * 550155966 + x3 * 858809194 + x4 * 209013872 + x5 * 1991878855 + x6 * 1034022669 == 2130706433 * q5 + x5,
    ensures
        x4 == 2130706433 * m,
{
    (273425166 * q0 + 1945544270 * q1 + 1850975835 * q2 + 2073776413 * q3 + 1385638109 * q4 + 236457821 * q5) - (3292179169 * x1 + 4485171651 * x2 + 4112641018 * x3 + 5437593382 * x4 + 3845386456 * x5 + 5387895834 * x6)
}

proof fn kept_5(x0: int, x1: int, x2: int, x3: int, x4: int, x5: int, x6: int, q0: int, q1: int, q2: int, q3: int, q4: int, q5: int, q6: int) -> (m: int)
    requires
        x0 * 1 + x1 * 587483156 + x2 * 1211185764 + x3 * 926148950 + x4 * 1525385643 + x5 * 636881039 + x6 * 448462982 == 2130706433 * q0 + x0,
        x0 * 0 + x1 * 843070426 + x2 * 536911287 + x3 * 97341948 + x4 * 1541060576 + x5 * 1369380874 + x6 * 1809047550 == 2130706433 * q1 + x1,
        x0 * 0 + x1 * 856916903 + x2 * 1786731555 + x3 * 1328592391 + x4 * 1544460289 + x5 * 1823056783 + x6 * 1873051132 == 2130706433 * q2 + x2,
        x0 * 0 + x1 * 802055410 + x2 * 1891857573 + x3 * 2024338901 + x4 * 1695665723 + x5 * 411001166 + x6 * 1563342685 == 2130706433 * q3 + x3,
        x0 * 0 + x1 * 1274370027 + x2 * 591969516 + x3 * 1053611575 + x4 * 1260084848 + x5 * 474370133 + x6 * 638206204 == 2130706433 * q4 + x4,
        x0 * 0 + x1 * 839777993 + x2 * 550155966 + x3 * 858809194 + x4 * 209013872 + x5 * 1991878855 + x6 * 1034022669 == 2130706433 * q5 + x5,
    ensures
        x5 == 2130706433 * m,
{
    (650853530 * q0 + 108969163 * q1 + 2070764162 * q2 + 106532720 * q3 + 639931199 * q4 + 34336848 * q5) - (1491757166 * x1 + 2415145517 * x2 + 2010592391 * x3 + 2512374305 * x4 + 2231467132 * x5 + 2336371394 * x6)
}

proof fn kept_6(x0: int, x1: int, x2: int, x3: int, x4: int, x5: int, x6: int, q0: int, q1: int, q2: int, q3: int, q4: int, q5: int, q6: int) -> (m: int)
    requires
        x0 * 1 + x1 * 587483156 + x2 * 1211185764 + x3 * 926148950 + x4 * 1525385643 + x5 * 636881039 + x6 * 448462982 == 2130706433 * q0 + x0,
        x0 * 0 + x1 * 843070426 + x2 * 536911287 + x3 * 97341948 + x4 * 1541060576 + x5 * 1369380874 + x6 * 1809047550 == 2130706433 * q1 + x1,
        x0 * 0 + x1 * 856916903 + x2 * 1786731555 + x3 * 1328592391 + x4 * 1544460289 + x5 * 1823056783 + x6 * 1873051132 == 2130706433 * q2 + x2,
        x0 * 0 + x1 * 802055410 + x2 * 1891857573 + x3 * 2024338901 + x4 * 1695665723 + x5 * 411001166 + x6 * 1563342685 == 2130706433 * q3 + x3,
        x0 * 0 + x1 * 1274370027 + x2 * 591969516 + x3 * 1053611575 + x4 * 1260084848 + x5 * 474370133 + x6 * 638206204 == 2130706433 * q4 + x4,
        x0 * 0 + x1 * 839777993 + x2 * 550155966 + x3 * 858809194 + x4 * 209013872 + x5 * 1991878855 + x6 * 1034022669 == 2130706433 * q5 + x5,
    ensures
        x6 == 2130706433 * m,
{
    (1739510495 * q0 + 1697477018 * q1 + 1664828258 * q2 + 156708089 * q3 + 198479258 * q4 + 1810503607 * q5) - (2712100947 * x1 + 3474382205 * x2 + 2848532800 * x3 + 4099507024 * x4 + 4802301149 * x5 + 4323914325 * x6)
}

/// An element that the map keeps lies in the base field.
pub proof fn kept_elements_are_residues(x: S7)
    requires
        x.canon(),
        frob(x) == x,
    ensures
        x == s_embed(x.c0),
{
    frob_is_image(x);
    let r = raw_image(x);
    let q0 = quotient(r.c0, x.c0);
    let q1 = quotient(r.c1, x.c1);
    let q2 = quotient(r.c2, x.c2);
    let q3 = quotient(r.c3, x.c3);
    let q4 = quotient(r.c4, x.c4);
    let q5 = quotient(r.c5, x.c5);
    let q6 = quotient(r.c6, x.c6);
    let m1 = kept_1(x.c0, x.c1, x.c2, x.c3, x.c4, x.c5, x.c6, q0, q1, q2, q3, q4, q5, q6);
    multiple_is_zero(x.c1, m1);
    let m2 = kept_2(x.c0, x.c1, x.c2, x.c3, x.c4, x.c5, x.c6, q0, q1, q2, q3, q4, q5, q6);
    multiple_is_zero(x.c2, m2);
    let m3 = kept_3(x.c0, x.c1, x.c2, x.c3, x.c4, x.c5, x.c6, q0, q1, q2, q3, q4, q5, q6);
    multiple_is_zero(x.c3, m3);
    let m4 = kept_4(x.c0, x.c1, x.c2, x.c3, x.c4, x.c5, x.c6, q0, q1, q2, q3, q4, q5, q6);
    multiple_is_zero(x.c4, m4);
    let m5 = kept_5(x.c0, x.c1, x.c2, x.c3, x.c4, x.c5, x.c6, q0, q1, q2, q3, q4, q5, q6);
    multiple_is_zero(x.c5, m5);
    let m6 = kept_6(x.c0, x.c1, x.c2, x.c3, x.c4, x.c5, x.c6, q0, q1, q2, q3, q4, q5, q6);
    multiple_is_zero(x.c6, m6);
}

proof fn quotient(r: int, c: int) -> (q: int)
    requires
        c == reduce(r),
    ensures
        r == 2130706433 * q + c,
{
    lemma_fundamental_div_mod(r, order());
    r / order()
}

proof fn multiple_is_zero(c: int, m: int)
    requires
        0 <= c < order(),
        c == 2130706433 * m,
    ensures
        c == 0,
{
}

/// The first `k` coefficients of an element weigh the powers of another one.
pub open spec fn eval_part(x: S7, t: S7, k: nat) -> S7
    decreases k,
{
    if k == 0 {
        s_zero()
    } else {
        eval_part(x, t, (k - 1) as nat) + s_embed(coeff(x, k - 1)) * s_pow(t, (k - 1) as nat)
    }
}

proof fn frob_part_is_eval(x: S7, k: nat)
    ensures
        frob_part(x, k) == eval_part(x, frob_gen(), k),
    decreases k,
{
    if k > 0 {
        frob_part_is_eval(x, (k - 1) as nat);
    }
}

/// Raising to the field order moves into the element that is weighed.
proof fn power_of_eval(x: S7, t: S7, k: nat)
    requires
        x.canon(),
        k <= 7,
    ensures
        s_pow(eval_part(x, t, k), order() as nat) == eval_part(x, s_pow(t, order() as nat), k),
    decreases k,
{
    let p = order() as nat;
    if k == 0 {
        pow_of_zero(p);
    } else {
        let j = (k - 1) as nat;
        let c = coeff(x, k - 1);
        power_of_eval(x, t, j);
        power_of_sum_by_order(eval_part(x, t, j), s_embed(c) * s_pow(t, j));
        pow_product(s_embed(c), s_pow(t, j), p);
        power_of_residue(c);
        pow_mul(t, j, p);
        pow_mul(t, p, j);
        assert(j * p == p * j) by (nonlinear_arith);
    }
}

proof fn powers_of_generator()
    ensures
        s_pow(s_gen(), 0) == s_one(),
        s_pow(s_gen(), 1) == s_gen(),
        s_pow(s_gen(), 2) == (S7 { c0: 0, c1: 0, c2: 1, c3: 0, c4: 0, c5: 0, c6: 0 }),
        s_pow(s_gen(), 3) == (S7 { c0: 0, c1: 0, c2: 0, c3: 1, c4: 0, c5: 0, c6: 0 }),
        s_pow(s_gen(), 4) == (S7 { c0: 0, c1: 0, c2: 0, c3: 0, c4: 1, c5: 0, c6: 0 }),
        s_pow(s_gen(), 5) == (S7 { c0: 0, c1: 0, c2: 0, c3: 0, c4: 0, c5: 1, c6: 0 }),
        s_pow(s_gen(), 6) == (S7 { c0: 0, c1: 0, c2: 0, c3: 0, c4: 0, c5: 0, c6: 1 }),
{
    first_power();
    next_is(1, S7 { c0: 0, c1: 1, c2: 0, c3: 0, c4: 0, c5: 0, c6: 0 }, S7 { c0: 0, c1: 0, c2: 0, c3: 0, c4: 0, c5: 0, c6: 0 }, S7 { c0: 0, c1: 0, c2: 1, c3: 0, c4: 0, c5: 0, c6: 0 });
    next_is(2, S7 { c0: 0, c1: 0, c2: 1, c3: 0, c4: 0, c5: 0, c6: 0 }, S7 { c0: 0, c1: 0, c2: 0, c3: 0, c4: 0, c5: 0, c6: 0 }, S7 { c0: 0, c1: 0, c2: 0, c3: 1, c4: 0, c5: 0, c6: 0 });
    next_is(3, S7 { c0: 0, c1: 0, c2: 0, c3: 1, c4: 0, c5: 0, c6: 0 }, S7 { c0: 0, c1: 0, c2: 0, c3: 0, c4: 0, c5: 0, c6: 0 }, S7 { c0: 0, c1: 0, c2: 0, c3: 0, c4: 1, c5: 0, c6: 0 });
    next_is(4, S7 { c0: 0, c1: 0, c2: 0, c3: 0, c4: 1, c5: 0, c6: 0 }, S7 { c0: 0, c1: 0, c2: 0, c3: 0, c4: 0, c5: 0, c6: 0 }, S7 { c0: 0, c1: 0, c2: 0, c3: 0, c4: 0, c5: 1, c6: 0 });
    next_is(5, S7 { c0: 0, c1: 0, c2: 0, c3: 0, c4: 0, c5: 1, c6: 0 }, S7 { c0: 0, c1: 0, c2: 0, c3: 0, c4: 0, c5: 0, c6: 0 }, S7 { c0: 0, c1: 0, c2: 0, c3: 0, c4: 0, c5: 0, c6: 1 });
    reveal(gen_power);
}

/// An element weighs the powers of the generator.
proof fn eval_at_generator(x: S7)
    requires
        x.canon(),
    ensures
        eval_part(x, s_gen(), 7) == x,
{
    powers_of_generator();
    lemma_reduce_canon(s_zero());
    lemma_reduce_canon(x);
    let g = s_gen();
    let e0 = s_zero();
    let e1 = S7 { c0: x.c0, c1: 0, c2: 0, c3: 0, c4: 0, c5: 0, c6: 0 };
    let e2 = S7 { c0: x.c0, c1: x.c1, c2: 0, c3: 0, c4: 0, c5: 0, c6: 0 };
    let e3 = S7 { c0: x.c0, c1: x.c1, c2: x.c2, c3: 0, c4: 0, c5: 0, c6: 0 };
    let e4 = S7 { c0: x.c0, c1: x.c1, c2: x.c2, c3: x.c3, c4: 0, c5: 0, c6: 0 };
    let e5 = S7 { c0: x.c0, c1: x.c1, c2: x.c2, c3: x.c3, c4: x.c4, c5: 0, c6: 0 };
    let e6 = S7 { c0: x.c0, c1: x.c1, c2: x.c2, c3: x.c3, c4: x.c4, c5: x.c5, c6: 0 };
    add_scaled(e0, e0, x.c0, s_pow(g, 0));
    lemma_reduce_canon(e1);
    assert(eval_part(x, g, 0) == e0);
    assert(eval_part(x, g, 1) == eval_part(x, g, 0) + s_embed(coeff(x, 0)) * s_pow(g, 0));
    assert(eval_part(x, g, 1) == e1);
    add_scaled(e1, e1, x.c1, s_pow(g, 1));
    lemma_reduce_canon(e2);
    assert(eval_part(x, g, 2) == eval_part(x, g, 1) + s_embed(coeff(x, 1)) * s_pow(g, 1));
    assert(eval_part(x, g, 2) == e2);
    add_scaled(e2, e2, x.c2, s_pow(g, 2));
    lemma_reduce_canon(e3);
    assert(eval_part(x, g, 3) == eval_part(x, g, 2) + s_embed(coeff(x, 2)) * s_pow(g, 2));
    assert(eval_part(x, g, 3) == e3);
    add_scaled(e3, e3, x.c3, s_pow(g, 3));
    lemma_reduce_canon(e4);
    assert(eval_part(x, g, 4) == eval_part(x, g, 3) + s_embed(coeff(x, 3)) * s_pow(g, 3));
    assert(eval_part(x, g, 4) == e4);
    add_scaled(e4, e4, x.c4, s_pow(g, 4));
    lemma_reduce_canon(e5);
    assert(eval_part(x, g, 5) == eval_part(x, g, 4) + s_embed(coeff(x, 4)) * s_pow(g, 4));
    assert(eval_part(x, g, 5) == e5);
    add_scaled(e5, e5, x.c5, s_pow(g, 5));
    lemma_reduce_canon(e6);
    assert(eval_part(x, g, 6) == eval_part(x, g, 5) + s_embed(coeff(x, 5)) * s_pow(g, 5));
    assert(eval_part(x, g, 6) == e6);
    add_scaled(e6, e6, x.c6, s_pow(g, 6));
    assert(eval_part(x, g, 7) == eval_part(x, g, 6) + s_embed(coeff(x, 6)) * s_pow(g, 6));
    assert(eval_part(x, g, 7) == x);
}

/// The map raises to the field order.
pub proof fn frob_is_power(x: S7)
    requires
        x.canon(),
    ensures
        frob(x) == s_pow(x, order() as nat),
{
    frob_part_is_eval(x, 7);
    power_of_eval(x, s_gen(), 7);
    eval_at_generator(x);
}

/// The map gives canonical elements.
pub proof fn frob_canon(x: S7)
    requires
        x.canon(),
    ensures
        frob(x).canon(),
{
    frob_is_power(x);
    pow_canon(x, order() as nat);
}

/// The map keeps products.
pub proof fn frob_of_product(x: S7, y: S7)
    requires
        x.canon(),
        y.canon(),
    ensures
        frob(x * y) == frob(x) * frob(y),
{
    mul_canon(x, y);
    frob_is_power(x);
    frob_is_power(y);
    frob_is_power(x * y);
    pow_product(x, y, order() as nat);
}

/// The map applied to what weighs the powers of an element.
proof fn frob_of_eval(x: S7, t: S7)
    requires
        x.canon(),
        t.canon(),
    ensures
        frob(eval_part(x, t, 7)) == eval_part(x, frob(t), 7),
{
    add_canon(eval_part(x, t, 6), s_embed(coeff(x, 6)) * s_pow(t, 6));
    frob_is_power(eval_part(x, t, 7));
    frob_is_power(t);
    power_of_eval(x, t, 7);
}

/// Applied seven times, the map gives back every element.
pub proof fn frob_comes_back(x: S7)
    requires
        x.canon(),
    ensures
        frob(frob(frob(frob(frob(frob(frob(x))))))) == x,
{
    let g = s_gen();
    let g1 = frob(g);
    let g2 = frob(g1);
    let g3 = frob(g2);
    let g4 = frob(g3);
    let g5 = frob(g4);
    let g6 = frob(g5);
    frob_canon(g);
    frob_canon(g1);
    frob_canon(g2);
    frob_canon(g3);
    frob_canon(g4);
    frob_canon(g5);
    eval_at_generator(x);
    frob_of_eval(x, g);
    frob_of_eval(x, g1);
    frob_of_eval(x, g2);
    frob_of_eval(x, g3);
    frob_of_eval(x, g4);
    frob_of_eval(x, g5);
    frob_of_eval(x, g6);
    generator_comes_back();
}

} // verus!
