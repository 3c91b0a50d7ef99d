//! The 128 twiddle factors of the number-theoretic transform, in signed
//! Montgomery form (each entry is zeta^brv(k) * 2^16 mod Q, brought into the
//! centered range), ordered by the 7-bit bit-reversal convention.

use vstd::prelude::*;

verus! {

/// Twiddle factors in Montgomery form, signed canonical.
pub const ZETAS: [i16; 128] = [
    -1044, -758, -359, -1517, 1493, 1422, 287, 202,
    -171, 622, 1577, 182, 962, -1202, -1474, 1468,
    573, -1325, 264, 383, -829, 1458, -1602, -130,
    -681, 1017, 732, 608, -1542, 411, -205, -1571,
    1223, 652, -552, 1015, -1293, 1491, -282, -1544,
    516, -8, -320, -666, -1618, -1162, 126, 1469,
    -853, -90, -271, 830, 107, -1421, -247, -951,
    -398, 961, -1508, -725, 448, -1065, 677, -1275,
    -1103, 430, 555, 843, -1251, 871, 1550, 105,
    422, 587, 177, -235, -291, -460, 1574, 1653,
    -246, 778, 1159, -147, -777, 1483, -602, 1119,
    -1590, 644, -872, 349, 418, 329, -156, -75,
    817, 1097, 603, 610, 1322, -1285, -1465, 384,
    -1215, -136, 1218, -1335, -874, 220, -1187, -1659,
    -1185, -1530, -1278, 794, -1510, -854, -870, 478,
    -108, -308, 996, 991, 958, -1460, 1522, 1628,
];

/// The table entry `ZETAS[k]` as a mathematical integer.
pub open spec fn zeta_m(k: int) -> int {
    ZETAS[k] as int
}

/// Every table entry is signed canonical: |ZETAS[k]| <= 1664.
pub proof fn lemma_zetas_canonical(k: int)
    requires
        0 <= k < 128,
    ensures
        -1664 <= zeta_m(k) <= 1664,
{
}

} // verus!

use crate::mod_q;

verus! {

/// True exactly for the half-block widths 2^0 .. 2^6 that index the layers.
pub open spec fn is_layer_half(h: int) -> bool {
    h == 1 || h == 2 || h == 4 || h == 8 || h == 16 || h == 32 || h == 64
}

/// The forward twiddle of block `kf` in a layer with half-width `h` and the
/// inverse twiddle of the same block multiply to -R^2 modulo Q: removing the
/// two Montgomery factors (169 == R^-1 mod Q twice) leaves exactly -1.
#[verifier::rlimit(100)]
pub proof fn lemma_zeta_pair(h: int, kf: int)
    requires
        is_layer_half(h),
        h <= kf < 2 * h,
    ensures
        mod_q(zeta_m(kf) * zeta_m(3 * h - 1 - kf) * 28561) == 3328,
{
        assert(zeta_m(1) == -758);
        assert(mod_q((-758int) * (-758) * 28561) == 3328);
        assert(zeta_m(2) == -359);
        assert(zeta_m(3) == -1517);
        assert(mod_q((-359int) * (-1517) * 28561) == 3328);
        assert(zeta_m(3) == -1517);
        assert(zeta_m(2) == -359);
        assert(mod_q((-1517int) * (-359) * 28561) == 3328);
        assert(zeta_m(4) == 1493);
        assert(zeta_m(7) == 202);
        assert(mod_q((1493int) * (202) * 28561) == 3328);
        assert(zeta_m(5) == 1422);
        assert(zeta_m(6) == 287);
        assert(mod_q((1422int) * (287) * 28561) == 3328);
        assert(zeta_m(6) == 287);
        assert(zeta_m(5) == 1422);
        assert(mod_q((287int) * (1422) * 28561) == 3328);
        assert(zeta_m(7) == 202);
        assert(zeta_m(4) == 1493);
        assert(mod_q((202int) * (1493) * 28561) == 3328);
        assert(zeta_m(8) == -171);
        assert(zeta_m(15) == 1468);
        assert(mod_q((-171int) * (1468) * 28561) == 3328);
        assert(zeta_m(9) == 622);
        assert(zeta_m(14) == -1474);
        assert(mod_q((622int) * (-1474) * 28561) == 3328);
        assert(zeta_m(10) == 1577);
        assert(zeta_m(13) == -1202);
        assert(mod_q((1577int) * (-1202) * 28561) == 3328);
        assert(zeta_m(11) == 182);
        assert(zeta_m(12) == 962);
        assert(mod_q((182int) * (962) * 28561) == 3328);
        assert(zeta_m(12) == 962);
        assert(zeta_m(11) == 182);
        assert(mod_q((962int) * (182) * 28561) == 3328);
        assert(zeta_m(13) == -1202);
        assert(zeta_m(10) == 1577);
        assert(mod_q((-1202int) * (1577) * 28561) == 3328);
        assert(zeta_m(14) == -1474);
        assert(zeta_m(9) == 622);
        assert(mod_q((-1474int) * (622) * 28561) == 3328);
        assert(zeta_m(15) == 1468);
        assert(zeta_m(8) == -171);
        assert(mod_q((1468int) * (-171) * 28561) == 3328);
        assert(zeta_m(16) == 573);
        assert(zeta_m(31) == -1571);
        assert(mod_q((573int) * (-1571) * 28561) == 3328);
        assert(zeta_m(17) == -1325);
        assert(zeta_m(30) == -205);
        assert(mod_q((-1325int) * (-205) * 28561) == 3328);
        assert(zeta_m(18) == 264);
        assert(zeta_m(29) == 411);
        assert(mod_q((264int) * (411) * 28561) == 3328);
        assert(zeta_m(19) == 383);
        assert(zeta_m(28) == -1542);
        assert(mod_q((383int) * (-1542) * 28561) == 3328);
        assert(zeta_m(20) == -829);
        assert(zeta_m(27) == 608);
        assert(mod_q((-829int) * (608) * 28561) == 3328);
        assert(zeta_m(21) == 1458);
        assert(zeta_m(26) == 732);
        assert(mod_q((1458int) * (732) * 28561) == 3328);
        assert(zeta_m(22) == -1602);
        assert(zeta_m(25) == 1017);
        assert(mod_q((-1602int) * (1017) * 28561) == 3328);
        assert(zeta_m(23) == -130);
        assert(zeta_m(24) == -681);
        assert(mod_q((-130int) * (-681) * 28561) == 3328);
        assert(zeta_m(24) == -681);
        assert(zeta_m(23) == -130);
        assert(mod_q((-681int) * (-130) * 28561) == 3328);
        assert(zeta_m(25) == 1017);
        assert(zeta_m(22) == -1602);
        assert(mod_q((1017int) * (-1602) * 28561) == 3328);
        assert(zeta_m(26) == 732);
        assert(zeta_m(21) == 1458);
        assert(mod_q((732int) * (1458) * 28561) == 3328);
        assert(zeta_m(27) == 608);
        assert(zeta_m(20) == -829);
        assert(mod_q((608int) * (-829) * 28561) == 3328);
        assert(zeta_m(28) == -1542);
        assert(zeta_m(19) == 383);
        assert(mod_q((-1542int) * (383) * 28561) == 3328);
        assert(zeta_m(29) == 411);
        assert(zeta_m(18) == 264);
        assert(mod_q((411int) * (264) * 28561) == 3328);
        assert(zeta_m(30) == -205);
        assert(zeta_m(17) == -1325);
        assert(mod_q((-205int) * (-1325) * 28561) == 3328);
        assert(zeta_m(31) == -1571);
        assert(zeta_m(16) == 573);
        assert(mod_q((-1571int) * (573) * 28561) == 3328);
        assert(zeta_m(32) == 1223);
        assert(zeta_m(63) == -1275);
        assert(mod_q((1223int) * (-1275) * 28561) == 3328);
        assert(zeta_m(33) == 652);
        assert(zeta_m(62) == 677);
        assert(mod_q((652int) * (677) * 28561) == 3328);
        assert(zeta_m(34) == -552);
        assert(zeta_m(61) == -1065);
        assert(mod_q((-552int) * (-1065) * 28561) == 3328);
        assert(zeta_m(35) == 1015);
        assert(zeta_m(60) == 448);
        assert(mod_q((1015int) * (448) * 28561) == 3328);
        assert(zeta_m(36) == -1293);
        assert(zeta_m(59) == -725);
        assert(mod_q((-1293int) * (-725) * 28561) == 3328);
        assert(zeta_m(37) == 1491);
        assert(zeta_m(58) == -1508);
        assert(mod_q((1491int) * (-1508) * 28561) == 3328);
        assert(zeta_m(38) == -282);
        assert(zeta_m(57) == 961);
        assert(mod_q((-282int) * (961) * 28561) == 3328);
        assert(zeta_m(39) == -1544);
        assert(zeta_m(56) == -398);
        assert(mod_q((-1544int) * (-398) * 28561) == 3328);
        assert(zeta_m(40) == 516);
        assert(zeta_m(55) == -951);
        assert(mod_q((516int) * (-951) * 28561) == 3328);
        assert(zeta_m(41) == -8);
        assert(zeta_m(54) == -247);
        assert(mod_q((-8int) * (-247) * 28561) == 3328);
        assert(zeta_m(42) == -320);
        assert(zeta_m(53) == -1421);
        assert(mod_q((-320int) * (-1421) * 28561) == 3328);
        assert(zeta_m(43) == -666);
        assert(zeta_m(52) == 107);
        assert(mod_q((-666int) * (107) * 28561) == 3328);
        assert(zeta_m(44) == -1618);
        assert(zeta_m(51) == 830);
        assert(mod_q((-1618int) * (830) * 28561) == 3328);
        assert(zeta_m(45) == -1162);
        assert(zeta_m(50) == -271);
        assert(mod_q((-1162int) * (-271) * 28561) == 3328);
        assert(zeta_m(46) == 126);
        assert(zeta_m(49) == -90);
        assert(mod_q((126int) * (-90) * 28561) == 3328);
        assert(zeta_m(47) == 1469);
        assert(zeta_m(48) == -853);
        assert(mod_q((1469int) * (-853) * 28561) == 3328);
        assert(zeta_m(48) == -853);
        assert(zeta_m(47) == 1469);
        assert(mod_q((-853int) * (1469) * 28561) == 3328);
        assert(zeta_m(49) == -90);
        assert(zeta_m(46) == 126);
        assert(mod_q((-90int) * (126) * 28561) == 3328);
        assert(zeta_m(50) == -271);
        assert(zeta_m(45) == -1162);
        assert(mod_q((-271int) * (-1162) * 28561) == 3328);
        assert(zeta_m(51) == 830);
        assert(zeta_m(44) == -1618);
        assert(mod_q((830int) * (-1618) * 28561) == 3328);
        assert(zeta_m(52) == 107);
        assert(zeta_m(43) == -666);
        assert(mod_q((107int) * (-666) * 28561) == 3328);
        assert(zeta_m(53) == -1421);
        assert(zeta_m(42) == -320);
        assert(mod_q((-1421int) * (-320) * 28561) == 3328);
        assert(zeta_m(54) == -247);
        assert(zeta_m(41) == -8);
        assert(mod_q((-247int) * (-8) * 28561) == 3328);
        assert(zeta_m(55) == -951);
        assert(zeta_m(40) == 516);
        assert(mod_q((-951int) * (516) * 28561) == 3328);
        assert(zeta_m(56) == -398);
        assert(zeta_m(39) == -1544);
        assert(mod_q((-398int) * (-1544) * 28561) == 3328);
        assert(zeta_m(57) == 961);
        assert(zeta_m(38) == -282);
        assert(mod_q((961int) * (-282) * 28561) == 3328);
        assert(zeta_m(58) == -1508);
        assert(zeta_m(37) == 1491);
        assert(mod_q((-1508int) * (1491) * 28561) == 3328);
        assert(zeta_m(59) == -725);
        assert(zeta_m(36) == -1293);
        assert(mod_q((-725int) * (-1293) * 28561) == 3328);
        assert(zeta_m(60) == 448);
        assert(zeta_m(35) == 1015);
        assert(mod_q((448int) * (1015) * 28561) == 3328);
        assert(zeta_m(61) == -1065);
        assert(zeta_m(34) == -552);
        assert(mod_q((-1065int) * (-552) * 28561) == 3328);
        assert(zeta_m(62) == 677);
        assert(zeta_m(33) == 652);
        assert(mod_q((677int) * (652) * 28561) == 3328);
        assert(zeta_m(63) == -1275);
        assert(zeta_m(32) == 1223);
        assert(mod_q((-1275int) * (1223) * 28561) == 3328);
        assert(zeta_m(64) == -1103);
        assert(zeta_m(127) == 1628);
        assert(mod_q((-1103int) * (1628) * 28561) == 3328);
        assert(zeta_m(65) == 430);
        assert(zeta_m(126) == 1522);
        assert(mod_q((430int) * (1522) * 28561) == 3328);
        assert(zeta_m(66) == 555);
        assert(zeta_m(125) == -1460);
        assert(mod_q((555int) * (-1460) * 28561) == 3328);
        assert(zeta_m(67) == 843);
        assert(zeta_m(124) == 958);
        assert(mod_q((843int) * (958) * 28561) == 3328);
        assert(zeta_m(68) == -1251);
        assert(zeta_m(123) == 991);
        assert(mod_q((-1251int) * (991) * 28561) == 3328);
        assert(zeta_m(69) == 871);
        assert(zeta_m(122) == 996);
        assert(mod_q((871int) * (996) * 28561) == 3328);
        assert(zeta_m(70) == 1550);
        assert(zeta_m(121) == -308);
        assert(mod_q((1550int) * (-308) * 28561) == 3328);
        assert(zeta_m(71) == 105);
        assert(zeta_m(120) == -108);
        assert(mod_q((105int) * (-108) * 28561) == 3328);
        assert(zeta_m(72) == 422);
        assert(zeta_m(119) == 478);
        assert(mod_q((422int) * (478) * 28561) == 3328);
        assert(zeta_m(73) == 587);
        assert(zeta_m(118) == -870);
        assert(mod_q((587int) * (-870) * 28561) == 3328);
        assert(zeta_m(74) == 177);
        assert(zeta_m(117) == -854);
        assert(mod_q((177int) * (-854) * 28561) == 3328);
        assert(zeta_m(75) == -235);
        assert(zeta_m(116) == -1510);
        assert(mod_q((-235int) * (-1510) * 28561) == 3328);
        assert(zeta_m(76) == -291);
        assert(zeta_m(115) == 794);
        assert(mod_q((-291int) * (794) * 28561) == 3328);
        assert(zeta_m(77) == -460);
        assert(zeta_m(114) == -1278);
        assert(mod_q((-460int) * (-1278) * 28561) == 3328);
        assert(zeta_m(78) == 1574);
        assert(zeta_m(113) == -1530);
        assert(mod_q((1574int) * (-1530) * 28561) == 3328);
        assert(zeta_m(79) == 1653);
        assert(zeta_m(112) == -1185);
        assert(mod_q((1653int) * (-1185) * 28561) == 3328);
        assert(zeta_m(80) == -246);
        assert(zeta_m(111) == -1659);
        assert(mod_q((-246int) * (-1659) * 28561) == 3328);
        assert(zeta_m(81) == 778);
        assert(zeta_m(110) == -1187);
        assert(mod_q((778int) * (-1187) * 28561) == 3328);
        assert(zeta_m(82) == 1159);
        assert(zeta_m(109) == 220);
        assert(mod_q((1159int) * (220) * 28561) == 3328);
        assert(zeta_m(83) == -147);
        assert(zeta_m(108) == -874);
        assert(mod_q((-147int) * (-874) * 28561) == 3328);
        assert(zeta_m(84) == -777);
        assert(zeta_m(107) == -1335);
        assert(mod_q((-777int) * (-1335) * 28561) == 3328);
        assert(zeta_m(85) == 1483);
        assert(zeta_m(106) == 1218);
        assert(mod_q((1483int) * (1218) * 28561) == 3328);
        assert(zeta_m(86) == -602);
        assert(zeta_m(105) == -136);
        assert(mod_q((-602int) * (-136) * 28561) == 3328);
        assert(zeta_m(87) == 1119);
        assert(zeta_m(104) == -1215);
        assert(mod_q((1119int) * (-1215) * 28561) == 3328);
        assert(zeta_m(88) == -1590);
        assert(zeta_m(103) == 384);
        assert(mod_q((-1590int) * (384) * 28561) == 3328);
        assert(zeta_m(89) == 644);
        assert(zeta_m(102) == -1465);
        assert(mod_q((644int) * (-1465) * 28561) == 3328);
        assert(zeta_m(90) == -872);
        assert(zeta_m(101) == -1285);
        assert(mod_q((-872int) * (-1285) * 28561) == 3328);
        assert(zeta_m(91) == 349);
        assert(zeta_m(100) == 1322);
        assert(mod_q((349int) * (1322) * 28561) == 3328);
        assert(zeta_m(92) == 418);
        assert(zeta_m(99) == 610);
        assert(mod_q((418int) * (610) * 28561) == 3328);
        assert(zeta_m(93) == 329);
        assert(zeta_m(98) == 603);
        assert(mod_q((329int) * (603) * 28561) == 3328);
        assert(zeta_m(94) == -156);
        assert(zeta_m(97) == 1097);
        assert(mod_q((-156int) * (1097) * 28561) == 3328);
        assert(zeta_m(95) == -75);
        assert(zeta_m(96) == 817);
        assert(mod_q((-75int) * (817) * 28561) == 3328);
        assert(zeta_m(96) == 817);
        assert(zeta_m(95) == -75);
        assert(mod_q((817int) * (-75) * 28561) == 3328);
        assert(zeta_m(97) == 1097);
        assert(zeta_m(94) == -156);
        assert(mod_q((1097int) * (-156) * 28561) == 3328);
        assert(zeta_m(98) == 603);
        assert(zeta_m(93) == 329);
        assert(mod_q((603int) * (329) * 28561) == 3328);
        assert(zeta_m(99) == 610);
        assert(zeta_m(92) == 418);
        assert(mod_q((610int) * (418) * 28561) == 3328);
        assert(zeta_m(100) == 1322);
        assert(zeta_m(91) == 349);
        assert(mod_q((1322int) * (349) * 28561) == 3328);
        assert(zeta_m(101) == -1285);
        assert(zeta_m(90) == -872);
        assert(mod_q((-1285int) * (-872) * 28561) == 3328);
        assert(zeta_m(102) == -1465);
        assert(zeta_m(89) == 644);
        assert(mod_q((-1465int) * (644) * 28561) == 3328);
        assert(zeta_m(103) == 384);
        assert(zeta_m(88) == -1590);
        assert(mod_q((384int) * (-1590) * 28561) == 3328);
        assert(zeta_m(104) == -1215);
        assert(zeta_m(87) == 1119);
        assert(mod_q((-1215int) * (1119) * 28561) == 3328);
        assert(zeta_m(105) == -136);
        assert(zeta_m(86) == -602);
        assert(mod_q((-136int) * (-602) * 28561) == 3328);
        assert(zeta_m(106) == 1218);
        assert(zeta_m(85) == 1483);
        assert(mod_q((1218int) * (1483) * 28561) == 3328);
        assert(zeta_m(107) == -1335);
        assert(zeta_m(84) == -777);
        assert(mod_q((-1335int) * (-777) * 28561) == 3328);
        assert(zeta_m(108) == -874);
        assert(zeta_m(83) == -147);
        assert(mod_q((-874int) * (-147) * 28561) == 3328);
        assert(zeta_m(109) == 220);
        assert(zeta_m(82) == 1159);
        assert(mod_q((220int) * (1159) * 28561) == 3328);
        assert(zeta_m(110) == -1187);
        assert(zeta_m(81) == 778);
        assert(mod_q((-1187int) * (778) * 28561) == 3328);
        assert(zeta_m(111) == -1659);
        assert(zeta_m(80) == -246);
        assert(mod_q((-1659int) * (-246) * 28561) == 3328);
        assert(zeta_m(112) == -1185);
        assert(zeta_m(79) == 1653);
        assert(mod_q((-1185int) * (1653) * 28561) == 3328);
        assert(zeta_m(113) == -1530);
        assert(zeta_m(78) == 1574);
        assert(mod_q((-1530int) * (1574) * 28561) == 3328);
        assert(zeta_m(114) == -1278);
        assert(zeta_m(77) == -460);
        assert(mod_q((-1278int) * (-460) * 28561) == 3328);
        assert(zeta_m(115) == 794);
        assert(zeta_m(76) == -291);
        assert(mod_q((794int) * (-291) * 28561) == 3328);
        assert(zeta_m(116) == -1510);
        assert(zeta_m(75) == -235);
        assert(mod_q((-1510int) * (-235) * 28561) == 3328);
        assert(zeta_m(117) == -854);
        assert(zeta_m(74) == 177);
        assert(mod_q((-854int) * (177) * 28561) == 3328);
        assert(zeta_m(118) == -870);
        assert(zeta_m(73) == 587);
        assert(mod_q((-870int) * (587) * 28561) == 3328);
        assert(zeta_m(119) == 478);
        assert(zeta_m(72) == 422);
        assert(mod_q((478int) * (422) * 28561) == 3328);
        assert(zeta_m(120) == -108);
        assert(zeta_m(71) == 105);
        assert(mod_q((-108int) * (105) * 28561) == 3328);
        assert(zeta_m(121) == -308);
        assert(zeta_m(70) == 1550);
        assert(mod_q((-308int) * (1550) * 28561) == 3328);
        assert(zeta_m(122) == 996);
        assert(zeta_m(69) == 871);
        assert(mod_q((996int) * (871) * 28561) == 3328);
        assert(zeta_m(123) == 991);
        assert(zeta_m(68) == -1251);
        assert(mod_q((991int) * (-1251) * 28561) == 3328);
        assert(zeta_m(124) == 958);
        assert(zeta_m(67) == 843);
        assert(mod_q((958int) * (843) * 28561) == 3328);
        assert(zeta_m(125) == -1460);
        assert(zeta_m(66) == 555);
        assert(mod_q((-1460int) * (555) * 28561) == 3328);
        assert(zeta_m(126) == 1522);
        assert(zeta_m(65) == 430);
        assert(mod_q((1522int) * (430) * 28561) == 3328);
        assert(zeta_m(127) == 1628);
        assert(zeta_m(64) == -1103);
        assert(mod_q((1628int) * (-1103) * 28561) == 3328);
}

} // verus!
