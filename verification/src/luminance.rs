//! Linear light of the 256 channel values of sRGB.

use vstd::prelude::*;

verus! {

/// The fifth power.
pub open spec fn pow5(x: int) -> int {
    x * x * x * x * x
}

/// The twelfth power.
pub open spec fn pow12(x: int) -> int {
    x * x * x * x * x * x * x * x * x * x * x * x
}

/// Whether `v` is the linear light of a channel value in billionths, rounded
/// down. With `x = c / 255` that is `x / 12.92` up to 0.04045, and
/// `((x + 0.055) / 1.055)` to the power 2.4 above; the second is stated over
/// fifth powers, `(x + 0.055) / 1.055` being `(40 c + 561) / 10761`: the large
/// factors are the twelfth power of 10761 and the fifth power of a billion.
pub open spec fn is_linear(c: int, v: int) -> bool {
    0 <= v && if c <= 10 {
        329460 * v <= 100000000000 * c < 329460 * (v + 1)
    } else {
        2411190793574749699868207333899670437295870570721 * pow5(v) <= 1000000000000000000000000000000000000000000000 * pow12(
            40 * c + 561,
        ) < 2411190793574749699868207333899670437295870570721 * pow5(v + 1)
    }
}

fn linear_0(c: u8) -> (v: u64)
    requires
        0 <= c <= 15,
    ensures
        is_linear(c as int, v as int),
        v <= 1000000000,
{
    match c {
        0 => {
            assert(is_linear(0, 0));
            0
        },
        1 => {
            assert(is_linear(1, 303526));
            303526
        },
        2 => {
            assert(is_linear(2, 607053));
            607053
        },
        3 => {
            assert(is_linear(3, 910580));
            910580
        },
        4 => {
            assert(is_linear(4, 1214107));
            1214107
        },
        5 => {
            assert(is_linear(5, 1517634));
            1517634
        },
        6 => {
            assert(is_linear(6, 1821161));
            1821161
        },
        7 => {
            assert(is_linear(7, 2124688));
            2124688
        },
        8 => {
            assert(is_linear(8, 2428215));
            2428215
        },
        9 => {
            assert(is_linear(9, 2731742));
            2731742
        },
        10 => {
            assert(is_linear(10, 3035269));
            3035269
        },
        11 => {
            assert(is_linear(11, 3346535)) by (nonlinear_arith);
            3346535
        },
        12 => {
            assert(is_linear(12, 3676507)) by (nonlinear_arith);
            3676507
        },
        13 => {
            assert(is_linear(13, 4024717)) by (nonlinear_arith);
            4024717
        },
        14 => {
            assert(is_linear(14, 4391442)) by (nonlinear_arith);
            4391442
        },
        _ => {
            assert(is_linear(15, 4776953)) by (nonlinear_arith);
            4776953
        },
    }
}

fn linear_1(c: u8) -> (v: u64)
    requires
        16 <= c <= 31,
    ensures
        is_linear(c as int, v as int),
        v <= 1000000000,
{
    match c {
        16 => {
            assert(is_linear(16, 5181516)) by (nonlinear_arith);
            5181516
        },
        17 => {
            assert(is_linear(17, 5605391)) by (nonlinear_arith);
            5605391
        },
        18 => {
            assert(is_linear(18, 6048833)) by (nonlinear_arith);
            6048833
        },
        19 => {
            assert(is_linear(19, 6512090)) by (nonlinear_arith);
            6512090
        },
        20 => {
            assert(is_linear(20, 6995410)) by (nonlinear_arith);
            6995410
        },
        21 => {
            assert(is_linear(21, 7499032)) by (nonlinear_arith);
            7499032
        },
        22 => {
            assert(is_linear(22, 8023192)) by (nonlinear_arith);
            8023192
        },
        23 => {
            assert(is_linear(23, 8568125)) by (nonlinear_arith);
            8568125
        },
        24 => {
            assert(is_linear(24, 9134058)) by (nonlinear_arith);
            9134058
        },
        25 => {
            assert(is_linear(25, 9721217)) by (nonlinear_arith);
            9721217
        },
        26 => {
            assert(is_linear(26, 10329823)) by (nonlinear_arith);
            10329823
        },
        27 => {
            assert(is_linear(27, 10960094)) by (nonlinear_arith);
            10960094
        },
        28 => {
            assert(is_linear(28, 11612245)) by (nonlinear_arith);
            11612245
        },
        29 => {
            assert(is_linear(29, 12286488)) by (nonlinear_arith);
            12286488
        },
        30 => {
            assert(is_linear(30, 12983032)) by (nonlinear_arith);
            12983032
        },
        _ => {
            assert(is_linear(31, 13702083)) by (nonlinear_arith);
            13702083
        },
    }
}

fn linear_2(c: u8) -> (v: u64)
    requires
        32 <= c <= 47,
    ensures
        is_linear(c as int, v as int),
        v <= 1000000000,
{
    match c {
        32 => {
            assert(is_linear(32, 14443843)) by (nonlinear_arith);
            14443843
        },
        33 => {
            assert(is_linear(33, 15208514)) by (nonlinear_arith);
            15208514
        },
        34 => {
            assert(is_linear(34, 15996293)) by (nonlinear_arith);
            15996293
        },
        35 => {
            assert(is_linear(35, 16807375)) by (nonlinear_arith);
            16807375
        },
        36 => {
            assert(is_linear(36, 17641954)) by (nonlinear_arith);
            17641954
        },
        37 => {
            assert(is_linear(37, 18500220)) by (nonlinear_arith);
            18500220
        },
        38 => {
            assert(is_linear(38, 19382360)) by (nonlinear_arith);
            19382360
        },
        39 => {
            assert(is_linear(39, 20288563)) by (nonlinear_arith);
            20288563
        },
        40 => {
            assert(is_linear(40, 21219010)) by (nonlinear_arith);
            21219010
        },
        41 => {
            assert(is_linear(41, 22173884)) by (nonlinear_arith);
            22173884
        },
        42 => {
            assert(is_linear(42, 23153366)) by (nonlinear_arith);
            23153366
        },
        43 => {
            assert(is_linear(43, 24157632)) by (nonlinear_arith);
            24157632
        },
        44 => {
            assert(is_linear(44, 25186859)) by (nonlinear_arith);
            25186859
        },
        45 => {
            assert(is_linear(45, 26241221)) by (nonlinear_arith);
            26241221
        },
        46 => {
            assert(is_linear(46, 27320891)) by (nonlinear_arith);
            27320891
        },
        _ => {
            assert(is_linear(47, 28426039)) by (nonlinear_arith);
            28426039
        },
    }
}

fn linear_3(c: u8) -> (v: u64)
    requires
        48 <= c <= 63,
    ensures
        is_linear(c as int, v as int),
        v <= 1000000000,
{
    match c {
        48 => {
            assert(is_linear(48, 29556834)) by (nonlinear_arith);
            29556834
        },
        49 => {
            assert(is_linear(49, 30713443)) by (nonlinear_arith);
            30713443
        },
        50 => {
            assert(is_linear(50, 31896033)) by (nonlinear_arith);
            31896033
        },
        51 => {
            assert(is_linear(51, 33104766)) by (nonlinear_arith);
            33104766
        },
        52 => {
            assert(is_linear(52, 34339806)) by (nonlinear_arith);
            34339806
        },
        53 => {
            assert(is_linear(53, 35601314)) by (nonlinear_arith);
            35601314
        },
        54 => {
            assert(is_linear(54, 36889450)) by (nonlinear_arith);
            36889450
        },
        55 => {
            assert(is_linear(55, 38204371)) by (nonlinear_arith);
            38204371
        },
        56 => {
            assert(is_linear(56, 39546235)) by (nonlinear_arith);
            39546235
        },
        57 => {
            assert(is_linear(57, 40915196)) by (nonlinear_arith);
            40915196
        },
        58 => {
            assert(is_linear(58, 42311410)) by (nonlinear_arith);
            42311410
        },
        59 => {
            assert(is_linear(59, 43735029)) by (nonlinear_arith);
            43735029
        },
        60 => {
            assert(is_linear(60, 45186204)) by (nonlinear_arith);
            45186204
        },
        61 => {
            assert(is_linear(61, 46665086)) by (nonlinear_arith);
            46665086
        },
        62 => {
            assert(is_linear(62, 48171824)) by (nonlinear_arith);
            48171824
        },
        _ => {
            assert(is_linear(63, 49706565)) by (nonlinear_arith);
            49706565
        },
    }
}

fn linear_4(c: u8) -> (v: u64)
    requires
        64 <= c <= 79,
    ensures
        is_linear(c as int, v as int),
        v <= 1000000000,
{
    match c {
        64 => {
            assert(is_linear(64, 51269458)) by (nonlinear_arith);
            51269458
        },
        65 => {
            assert(is_linear(65, 52860647)) by (nonlinear_arith);
            52860647
        },
        66 => {
            assert(is_linear(66, 54480276)) by (nonlinear_arith);
            54480276
        },
        67 => {
            assert(is_linear(67, 56128490)) by (nonlinear_arith);
            56128490
        },
        68 => {
            assert(is_linear(68, 57805430)) by (nonlinear_arith);
            57805430
        },
        69 => {
            assert(is_linear(69, 59511238)) by (nonlinear_arith);
            59511238
        },
        70 => {
            assert(is_linear(70, 61246054)) by (nonlinear_arith);
            61246054
        },
        71 => {
            assert(is_linear(71, 63010017)) by (nonlinear_arith);
            63010017
        },
        72 => {
            assert(is_linear(72, 64803266)) by (nonlinear_arith);
            64803266
        },
        73 => {
            assert(is_linear(73, 66625938)) by (nonlinear_arith);
            66625938
        },
        74 => {
            assert(is_linear(74, 68478169)) by (nonlinear_arith);
            68478169
        },
        75 => {
            assert(is_linear(75, 70360095)) by (nonlinear_arith);
            70360095
        },
        76 => {
            assert(is_linear(76, 72271850)) by (nonlinear_arith);
            72271850
        },
        77 => {
            assert(is_linear(77, 74213568)) by (nonlinear_arith);
            74213568
        },
        78 => {
            assert(is_linear(78, 76185381)) by (nonlinear_arith);
            76185381
        },
        _ => {
            assert(is_linear(79, 78187421)) by (nonlinear_arith);
            78187421
        },
    }
}

fn linear_5(c: u8) -> (v: u64)
    requires
        80 <= c <= 95,
    ensures
        is_linear(c as int, v as int),
        v <= 1000000000,
{
    match c {
        80 => {
            assert(is_linear(80, 80219820)) by (nonlinear_arith);
            80219820
        },
        81 => {
            assert(is_linear(81, 82282707)) by (nonlinear_arith);
            82282707
        },
        82 => {
            assert(is_linear(82, 84376211)) by (nonlinear_arith);
            84376211
        },
        83 => {
            assert(is_linear(83, 86500462)) by (nonlinear_arith);
            86500462
        },
        84 => {
            assert(is_linear(84, 88655586)) by (nonlinear_arith);
            88655586
        },
        85 => {
            assert(is_linear(85, 90841711)) by (nonlinear_arith);
            90841711
        },
        86 => {
            assert(is_linear(86, 93058962)) by (nonlinear_arith);
            93058962
        },
        87 => {
            assert(is_linear(87, 95307466)) by (nonlinear_arith);
            95307466
        },
        88 => {
            assert(is_linear(88, 97587347)) by (nonlinear_arith);
            97587347
        },
        89 => {
            assert(is_linear(89, 99898728)) by (nonlinear_arith);
            99898728
        },
        90 => {
            assert(is_linear(90, 102241733)) by (nonlinear_arith);
            102241733
        },
        91 => {
            assert(is_linear(91, 104616484)) by (nonlinear_arith);
            104616484
        },
        92 => {
            assert(is_linear(92, 107023102)) by (nonlinear_arith);
            107023102
        },
        93 => {
            assert(is_linear(93, 109461710)) by (nonlinear_arith);
            109461710
        },
        94 => {
            assert(is_linear(94, 111932427)) by (nonlinear_arith);
            111932427
        },
        _ => {
            assert(is_linear(95, 114435373)) by (nonlinear_arith);
            114435373
        },
    }
}

fn linear_6(c: u8) -> (v: u64)
    requires
        96 <= c <= 111,
    ensures
        is_linear(c as int, v as int),
        v <= 1000000000,
{
    match c {
        96 => {
            assert(is_linear(96, 116970667)) by (nonlinear_arith);
            116970667
        },
        97 => {
            assert(is_linear(97, 119538427)) by (nonlinear_arith);
            119538427
        },
        98 => {
            assert(is_linear(98, 122138772)) by (nonlinear_arith);
            122138772
        },
        99 => {
            assert(is_linear(99, 124771817)) by (nonlinear_arith);
            124771817
        },
        100 => {
            assert(is_linear(100, 127437680)) by (nonlinear_arith);
            127437680
        },
        101 => {
            assert(is_linear(101, 130136476)) by (nonlinear_arith);
            130136476
        },
        102 => {
            assert(is_linear(102, 132868321)) by (nonlinear_arith);
            132868321
        },
        103 => {
            assert(is_linear(103, 135633329)) by (nonlinear_arith);
            135633329
        },
        104 => {
            assert(is_linear(104, 138431615)) by (nonlinear_arith);
            138431615
        },
        105 => {
            assert(is_linear(105, 141263291)) by (nonlinear_arith);
            141263291
        },
        106 => {
            assert(is_linear(106, 144128470)) by (nonlinear_arith);
            144128470
        },
        107 => {
            assert(is_linear(107, 147027266)) by (nonlinear_arith);
            147027266
        },
        108 => {
            assert(is_linear(108, 149959789)) by (nonlinear_arith);
            149959789
        },
        109 => {
            assert(is_linear(109, 152926151)) by (nonlinear_arith);
            152926151
        },
        110 => {
            assert(is_linear(110, 155926463)) by (nonlinear_arith);
            155926463
        },
        _ => {
            assert(is_linear(111, 158960835)) by (nonlinear_arith);
            158960835
        },
    }
}

fn linear_7(c: u8) -> (v: u64)
    requires
        112 <= c <= 127,
    ensures
        is_linear(c as int, v as int),
        v <= 1000000000,
{
    match c {
        112 => {
            assert(is_linear(112, 162029375)) by (nonlinear_arith);
            162029375
        },
        113 => {
            assert(is_linear(113, 165132194)) by (nonlinear_arith);
            165132194
        },
        114 => {
            assert(is_linear(114, 168269400)) by (nonlinear_arith);
            168269400
        },
        115 => {
            assert(is_linear(115, 171441100)) by (nonlinear_arith);
            171441100
        },
        116 => {
            assert(is_linear(116, 174647403)) by (nonlinear_arith);
            174647403
        },
        117 => {
            assert(is_linear(117, 177888415)) by (nonlinear_arith);
            177888415
        },
        118 => {
            assert(is_linear(118, 181164244)) by (nonlinear_arith);
            181164244
        },
        119 => {
            assert(is_linear(119, 184474994)) by (nonlinear_arith);
            184474994
        },
        120 => {
            assert(is_linear(120, 187820772)) by (nonlinear_arith);
            187820772
        },
        121 => {
            assert(is_linear(121, 191201682)) by (nonlinear_arith);
            191201682
        },
        122 => {
            assert(is_linear(122, 194617830)) by (nonlinear_arith);
            194617830
        },
        123 => {
            assert(is_linear(123, 198069319)) by (nonlinear_arith);
            198069319
        },
        124 => {
            assert(is_linear(124, 201556253)) by (nonlinear_arith);
            201556253
        },
        125 => {
            assert(is_linear(125, 205078736)) by (nonlinear_arith);
            205078736
        },
        126 => {
            assert(is_linear(126, 208636870)) by (nonlinear_arith);
            208636870
        },
        _ => {
            assert(is_linear(127, 212230757)) by (nonlinear_arith);
            212230757
        },
    }
}

fn linear_8(c: u8) -> (v: u64)
    requires
        128 <= c <= 143,
    ensures
        is_linear(c as int, v as int),
        v <= 1000000000,
{
    match c {
        128 => {
            assert(is_linear(128, 215860500)) by (nonlinear_arith);
            215860500
        },
        129 => {
            assert(is_linear(129, 219526199)) by (nonlinear_arith);
            219526199
        },
        130 => {
            assert(is_linear(130, 223227957)) by (nonlinear_arith);
            223227957
        },
        131 => {
            assert(is_linear(131, 226965873)) by (nonlinear_arith);
            226965873
        },
        132 => {
            assert(is_linear(132, 230740048)) by (nonlinear_arith);
            230740048
        },
        133 => {
            assert(is_linear(133, 234550582)) by (nonlinear_arith);
            234550582
        },
        134 => {
            assert(is_linear(134, 238397573)) by (nonlinear_arith);
            238397573
        },
        135 => {
            assert(is_linear(135, 242281122)) by (nonlinear_arith);
            242281122
        },
        136 => {
            assert(is_linear(136, 246201326)) by (nonlinear_arith);
            246201326
        },
        137 => {
            assert(is_linear(137, 250158284)) by (nonlinear_arith);
            250158284
        },
        138 => {
            assert(is_linear(138, 254152094)) by (nonlinear_arith);
            254152094
        },
        139 => {
            assert(is_linear(139, 258182852)) by (nonlinear_arith);
            258182852
        },
        140 => {
            assert(is_linear(140, 262250657)) by (nonlinear_arith);
            262250657
        },
        141 => {
            assert(is_linear(141, 266355604)) by (nonlinear_arith);
            266355604
        },
        142 => {
            assert(is_linear(142, 270497791)) by (nonlinear_arith);
            270497791
        },
        _ => {
            assert(is_linear(143, 274677312)) by (nonlinear_arith);
            274677312
        },
    }
}

fn linear_9(c: u8) -> (v: u64)
    requires
        144 <= c <= 159,
    ensures
        is_linear(c as int, v as int),
        v <= 1000000000,
{
    match c {
        144 => {
            assert(is_linear(144, 278894263)) by (nonlinear_arith);
            278894263
        },
        145 => {
            assert(is_linear(145, 283148740)) by (nonlinear_arith);
            283148740
        },
        146 => {
            assert(is_linear(146, 287440837)) by (nonlinear_arith);
            287440837
        },
        147 => {
            assert(is_linear(147, 291770649)) by (nonlinear_arith);
            291770649
        },
        148 => {
            assert(is_linear(148, 296138270)) by (nonlinear_arith);
            296138270
        },
        149 => {
            assert(is_linear(149, 300543794)) by (nonlinear_arith);
            300543794
        },
        150 => {
            assert(is_linear(150, 304987314)) by (nonlinear_arith);
            304987314
        },
        151 => {
            assert(is_linear(151, 309468922)) by (nonlinear_arith);
            309468922
        },
        152 => {
            assert(is_linear(152, 313988713)) by (nonlinear_arith);
            313988713
        },
        153 => {
            assert(is_linear(153, 318546778)) by (nonlinear_arith);
            318546778
        },
        154 => {
            assert(is_linear(154, 323143209)) by (nonlinear_arith);
            323143209
        },
        155 => {
            assert(is_linear(155, 327778098)) by (nonlinear_arith);
            327778098
        },
        156 => {
            assert(is_linear(156, 332451536)) by (nonlinear_arith);
            332451536
        },
        157 => {
            assert(is_linear(157, 337163615)) by (nonlinear_arith);
            337163615
        },
        158 => {
            assert(is_linear(158, 341914424)) by (nonlinear_arith);
            341914424
        },
        _ => {
            assert(is_linear(159, 346704056)) by (nonlinear_arith);
            346704056
        },
    }
}

fn linear_a(c: u8) -> (v: u64)
    requires
        160 <= c <= 175,
    ensures
        is_linear(c as int, v as int),
        v <= 1000000000,
{
    match c {
        160 => {
            assert(is_linear(160, 351532599)) by (nonlinear_arith);
            351532599
        },
        161 => {
            assert(is_linear(161, 356400144)) by (nonlinear_arith);
            356400144
        },
        162 => {
            assert(is_linear(162, 361306779)) by (nonlinear_arith);
            361306779
        },
        163 => {
            assert(is_linear(163, 366252595)) by (nonlinear_arith);
            366252595
        },
        164 => {
            assert(is_linear(164, 371237680)) by (nonlinear_arith);
            371237680
        },
        165 => {
            assert(is_linear(165, 376262122)) by (nonlinear_arith);
            376262122
        },
        166 => {
            assert(is_linear(166, 381326011)) by (nonlinear_arith);
            381326011
        },
        167 => {
            assert(is_linear(167, 386429433)) by (nonlinear_arith);
            386429433
        },
        168 => {
            assert(is_linear(168, 391572477)) by (nonlinear_arith);
            391572477
        },
        169 => {
            assert(is_linear(169, 396755230)) by (nonlinear_arith);
            396755230
        },
        170 => {
            assert(is_linear(170, 401977779)) by (nonlinear_arith);
            401977779
        },
        171 => {
            assert(is_linear(171, 407240211)) by (nonlinear_arith);
            407240211
        },
        172 => {
            assert(is_linear(172, 412542613)) by (nonlinear_arith);
            412542613
        },
        173 => {
            assert(is_linear(173, 417885070)) by (nonlinear_arith);
            417885070
        },
        174 => {
            assert(is_linear(174, 423267669)) by (nonlinear_arith);
            423267669
        },
        _ => {
            assert(is_linear(175, 428690496)) by (nonlinear_arith);
            428690496
        },
    }
}

fn linear_b(c: u8) -> (v: u64)
    requires
        176 <= c <= 191,
    ensures
        is_linear(c as int, v as int),
        v <= 1000000000,
{
    match c {
        176 => {
            assert(is_linear(176, 434153636)) by (nonlinear_arith);
            434153636
        },
        177 => {
            assert(is_linear(177, 439657173)) by (nonlinear_arith);
            439657173
        },
        178 => {
            assert(is_linear(178, 445201194)) by (nonlinear_arith);
            445201194
        },
        179 => {
            assert(is_linear(179, 450785782)) by (nonlinear_arith);
            450785782
        },
        180 => {
            assert(is_linear(180, 456411023)) by (nonlinear_arith);
            456411023
        },
        181 => {
            assert(is_linear(181, 462076999)) by (nonlinear_arith);
            462076999
        },
        182 => {
            assert(is_linear(182, 467783796)) by (nonlinear_arith);
            467783796
        },
        183 => {
            assert(is_linear(183, 473531496)) by (nonlinear_arith);
            473531496
        },
        184 => {
            assert(is_linear(184, 479320183)) by (nonlinear_arith);
            479320183
        },
        185 => {
            assert(is_linear(185, 485149940)) by (nonlinear_arith);
            485149940
        },
        186 => {
            assert(is_linear(186, 491020849)) by (nonlinear_arith);
            491020849
        },
        187 => {
            assert(is_linear(187, 496932995)) by (nonlinear_arith);
            496932995
        },
        188 => {
            assert(is_linear(188, 502886458)) by (nonlinear_arith);
            502886458
        },
        189 => {
            assert(is_linear(189, 508881320)) by (nonlinear_arith);
            508881320
        },
        190 => {
            assert(is_linear(190, 514917665)) by (nonlinear_arith);
            514917665
        },
        _ => {
            assert(is_linear(191, 520995573)) by (nonlinear_arith);
            520995573
        },
    }
}

fn linear_c(c: u8) -> (v: u64)
    requires
        192 <= c <= 207,
    ensures
        is_linear(c as int, v as int),
        v <= 1000000000,
{
    match c {
        192 => {
            assert(is_linear(192, 527115125)) by (nonlinear_arith);
            527115125
        },
        193 => {
            assert(is_linear(193, 533276404)) by (nonlinear_arith);
            533276404
        },
        194 => {
            assert(is_linear(194, 539479489)) by (nonlinear_arith);
            539479489
        },
        195 => {
            assert(is_linear(195, 545724461)) by (nonlinear_arith);
            545724461
        },
        196 => {
            assert(is_linear(196, 552011401)) by (nonlinear_arith);
            552011401
        },
        197 => {
            assert(is_linear(197, 558340389)) by (nonlinear_arith);
            558340389
        },
        198 => {
            assert(is_linear(198, 564711505)) by (nonlinear_arith);
            564711505
        },
        199 => {
            assert(is_linear(199, 571124829)) by (nonlinear_arith);
            571124829
        },
        200 => {
            assert(is_linear(200, 577580440)) by (nonlinear_arith);
            577580440
        },
        201 => {
            assert(is_linear(201, 584078417)) by (nonlinear_arith);
            584078417
        },
        202 => {
            assert(is_linear(202, 590618840)) by (nonlinear_arith);
            590618840
        },
        203 => {
            assert(is_linear(203, 597201788)) by (nonlinear_arith);
            597201788
        },
        204 => {
            assert(is_linear(204, 603827338)) by (nonlinear_arith);
            603827338
        },
        205 => {
            assert(is_linear(205, 610495570)) by (nonlinear_arith);
            610495570
        },
        206 => {
            assert(is_linear(206, 617206562)) by (nonlinear_arith);
            617206562
        },
        _ => {
            assert(is_linear(207, 623960391)) by (nonlinear_arith);
            623960391
        },
    }
}

fn linear_d(c: u8) -> (v: u64)
    requires
        208 <= c <= 223,
    ensures
        is_linear(c as int, v as int),
        v <= 1000000000,
{
    match c {
        208 => {
            assert(is_linear(208, 630757136)) by (nonlinear_arith);
            630757136
        },
        209 => {
            assert(is_linear(209, 637596873)) by (nonlinear_arith);
            637596873
        },
        210 => {
            assert(is_linear(210, 644479681)) by (nonlinear_arith);
            644479681
        },
        211 => {
            assert(is_linear(211, 651405637)) by (nonlinear_arith);
            651405637
        },
        212 => {
            assert(is_linear(212, 658374817)) by (nonlinear_arith);
            658374817
        },
        213 => {
            assert(is_linear(213, 665387298)) by (nonlinear_arith);
            665387298
        },
        214 => {
            assert(is_linear(214, 672443156)) by (nonlinear_arith);
            672443156
        },
        215 => {
            assert(is_linear(215, 679542469)) by (nonlinear_arith);
            679542469
        },
        216 => {
            assert(is_linear(216, 686685312)) by (nonlinear_arith);
            686685312
        },
        217 => {
            assert(is_linear(217, 693871761)) by (nonlinear_arith);
            693871761
        },
        218 => {
            assert(is_linear(218, 701101891)) by (nonlinear_arith);
            701101891
        },
        219 => {
            assert(is_linear(219, 708375779)) by (nonlinear_arith);
            708375779
        },
        220 => {
            assert(is_linear(220, 715693500)) by (nonlinear_arith);
            715693500
        },
        221 => {
            assert(is_linear(221, 723055128)) by (nonlinear_arith);
            723055128
        },
        222 => {
            assert(is_linear(222, 730460740)) by (nonlinear_arith);
            730460740
        },
        _ => {
            assert(is_linear(223, 737910408)) by (nonlinear_arith);
            737910408
        },
    }
}

fn linear_e(c: u8) -> (v: u64)
    requires
        224 <= c <= 239,
    ensures
        is_linear(c as int, v as int),
        v <= 1000000000,
{
    match c {
        224 => {
            assert(is_linear(224, 745404209)) by (nonlinear_arith);
            745404209
        },
        225 => {
            assert(is_linear(225, 752942216)) by (nonlinear_arith);
            752942216
        },
        226 => {
            assert(is_linear(226, 760524504)) by (nonlinear_arith);
            760524504
        },
        227 => {
            assert(is_linear(227, 768151147)) by (nonlinear_arith);
            768151147
        },
        228 => {
            assert(is_linear(228, 775822218)) by (nonlinear_arith);
            775822218
        },
        229 => {
            assert(is_linear(229, 783537791)) by (nonlinear_arith);
            783537791
        },
        230 => {
            assert(is_linear(230, 791297940)) by (nonlinear_arith);
            791297940
        },
        231 => {
            assert(is_linear(231, 799102738)) by (nonlinear_arith);
            799102738
        },
        232 => {
            assert(is_linear(232, 806952257)) by (nonlinear_arith);
            806952257
        },
        233 => {
            assert(is_linear(233, 814846572)) by (nonlinear_arith);
            814846572
        },
        234 => {
            assert(is_linear(234, 822785754)) by (nonlinear_arith);
            822785754
        },
        235 => {
            assert(is_linear(235, 830769876)) by (nonlinear_arith);
            830769876
        },
        236 => {
            assert(is_linear(236, 838799011)) by (nonlinear_arith);
            838799011
        },
        237 => {
            assert(is_linear(237, 846873231)) by (nonlinear_arith);
            846873231
        },
        238 => {
            assert(is_linear(238, 854992608)) by (nonlinear_arith);
            854992608
        },
        _ => {
            assert(is_linear(239, 863157213)) by (nonlinear_arith);
            863157213
        },
    }
}

fn linear_f(c: u8) -> (v: u64)
    requires
        240 <= c <= 255,
    ensures
        is_linear(c as int, v as int),
        v <= 1000000000,
{
    match c {
        240 => {
            assert(is_linear(240, 871367119)) by (nonlinear_arith);
            871367119
        },
        241 => {
            assert(is_linear(241, 879622396)) by (nonlinear_arith);
            879622396
        },
        242 => {
            assert(is_linear(242, 887923117)) by (nonlinear_arith);
            887923117
        },
        243 => {
            assert(is_linear(243, 896269353)) by (nonlinear_arith);
            896269353
        },
        244 => {
            assert(is_linear(244, 904661174)) by (nonlinear_arith);
            904661174
        },
        245 => {
            assert(is_linear(245, 913098651)) by (nonlinear_arith);
            913098651
        },
        246 => {
            assert(is_linear(246, 921581856)) by (nonlinear_arith);
            921581856
        },
        247 => {
            assert(is_linear(247, 930110858)) by (nonlinear_arith);
            930110858
        },
        248 => {
            assert(is_linear(248, 938685728)) by (nonlinear_arith);
            938685728
        },
        249 => {
            assert(is_linear(249, 947306536)) by (nonlinear_arith);
            947306536
        },
        250 => {
            assert(is_linear(250, 955973353)) by (nonlinear_arith);
            955973353
        },
        251 => {
            assert(is_linear(251, 964686247)) by (nonlinear_arith);
            964686247
        },
        252 => {
            assert(is_linear(252, 973445290)) by (nonlinear_arith);
            973445290
        },
        253 => {
            assert(is_linear(253, 982250550)) by (nonlinear_arith);
            982250550
        },
        254 => {
            assert(is_linear(254, 991102097)) by (nonlinear_arith);
            991102097
        },
        _ => {
            assert(is_linear(255, 1000000000)) by (nonlinear_arith);
            1000000000
        },
    }
}

/// The linear light of a channel value, in billionths.
pub fn linear(c: u8) -> (v: u64)
    ensures
        is_linear(c as int, v as int),
        v <= 1000000000,
{
    match c / 16 {
        0 => linear_0(c),
        1 => linear_1(c),
        2 => linear_2(c),
        3 => linear_3(c),
        4 => linear_4(c),
        5 => linear_5(c),
        6 => linear_6(c),
        7 => linear_7(c),
        8 => linear_8(c),
        9 => linear_9(c),
        10 => linear_a(c),
        11 => linear_b(c),
        12 => linear_c(c),
        13 => linear_d(c),
        14 => linear_e(c),
        _ => linear_f(c),
    }
}

proof fn lemma_pow5_grows(a: int, b: int)
    by (nonlinear_arith)
    requires
        0 <= a <= b,
    ensures
        a * a * a * a * a <= b * b * b * b * b,
{
    assert(a * a <= b * b);
    assert(a * a * a <= b * b * b);
    assert(a * a * a * a <= b * b * b * b);
}

proof fn lemma_linear_at_most(c: int, a: int, b: int)
    requires
        is_linear(c, a),
        is_linear(c, b),
        0 <= a,
        0 <= b,
    ensures
        a <= b,
{
    if a > b && c > 10 {
        lemma_pow5_grows(b + 1, a);
    }
}

/// A channel value has one linear light.
pub proof fn lemma_linear_unique(c: int, a: int, b: int)
    requires
        is_linear(c, a),
        is_linear(c, b),
        0 <= a,
        0 <= b,
        0 <= c,
    ensures
        a == b,
{
    lemma_linear_at_most(c, a, b);
    lemma_linear_at_most(c, b, a);
}

/// The fifth root of `n / k`, rounded down, counted up from `v`.
proof fn lemma_root_exists(k: int, n: int, v: int) -> (root: int)
    requires
        k > 0,
        0 <= v,
        k * pow5(v) <= n,
    ensures
        0 <= root,
        k * pow5(root) <= n < k * pow5(root + 1),
    decreases n - v,
{
    if n < k * pow5(v + 1) {
        v
    } else {
        assert(v + 1 <= pow5(v + 1)) by {
            let w = v + 1;
            assert(w <= w * w * w * w * w) by (nonlinear_arith)
                requires
                    w >= 1,
            ;
        }
        assert(pow5(v + 1) <= k * pow5(v + 1)) by (nonlinear_arith)
            requires
                k >= 1,
                pow5(v + 1) >= 0,
        ;
        lemma_root_exists(k, n, v + 1)
    }
}

/// Every channel value has a linear light.
pub proof fn lemma_linear_exists(c: int) -> (v: int)
    requires
        0 <= c,
    ensures
        is_linear(c, v),
{
    if c <= 10 {
        100000000000 * c / 329460
    } else {
        let n = 1000000000000000000000000000000000000000000000 * pow12(40 * c + 561);
        lemma_pow12_grows(0, 40 * c + 561);
        lemma_root_exists(2411190793574749699868207333899670437295870570721int, n, 0)
    }
}

proof fn lemma_pow12_grows(a: int, b: int)
    requires
        0 <= a <= b,
    ensures
        0 <= pow12(a) <= pow12(b),
{
    lemma_square_grows(a, b);
    lemma_square_grows(a * a, b * b);
    let (p, q) = ((a * a) * (a * a), (b * b) * (b * b));
    assert(0 <= p * p * p <= q * q * q) by (nonlinear_arith)
        requires
            0 <= p <= q,
    ;
    assert(pow12(a) == p * p * p) by (nonlinear_arith)
        requires
            p == (a * a) * (a * a),
            pow12(a) == a * a * a * a * a * a * a * a * a * a * a * a,
    ;
    assert(pow12(b) == q * q * q) by (nonlinear_arith)
        requires
            q == (b * b) * (b * b),
            pow12(b) == b * b * b * b * b * b * b * b * b * b * b * b,
    ;
}

proof fn lemma_square_grows(a: int, b: int)
    by (nonlinear_arith)
    requires
        0 <= a <= b,
    ensures
        0 <= a * a <= b * b,
{
}

/// A brighter channel value has no less linear light.
pub proof fn lemma_linear_monotone(c: int, v: int, d: int, w: int)
    requires
        0 <= c <= d,
        is_linear(c, v),
        is_linear(d, w),
    ensures
        v <= w,
{
    if d > 10 && v > w {
        if c > 10 {
            lemma_pow12_grows(40 * c + 561, 40 * d + 561);
            lemma_pow5_grows(w + 1, v);
        } else {
            lemma_pow12_grows(1001, 40 * d + 561);
            lemma_pow5_grows(w + 1, 3035269);
            assert(2411190793574749699868207333899670437295870570721 * pow5(3035269)
                <= 1000000000000000000000000000000000000000000000 * pow12(1001)) by (nonlinear_arith);
        }
    }
}

/// White is full light.
pub proof fn lemma_linear_of_white()
    ensures
        is_linear(255, 1000000000),
{
    assert(is_linear(255, 1000000000)) by (nonlinear_arith);
}

} // verus!
