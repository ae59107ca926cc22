use crate::EccLevel;
use vstd::prelude::*;

verus! {

pub open spec fn ecc_index(ecl: EccLevel) -> int {
    match ecl {
        EccLevel::Low => 0,
        EccLevel::Medium => 1,
        EccLevel::Quartile => 2,
        EccLevel::High => 3,
    }
}

/// Number of data bits in a symbol of version `ver` once the function
/// modules are taken out, remainder bits included.
pub open spec fn raw_data_modules(ver: int) -> int {
    let base = (16 * ver + 128) * ver + 64;
    if ver >= 2 {
        let numalign = ver / 7 + 2;
        let less = (25 * numalign - 10) * numalign - 55;
        if ver >= 7 {
            base - less - 36
        } else {
            base - less
        }
    } else {
        base
    }
}

/// Number of 8-bit data codewords in a symbol of version `ver` at level `ecl`.
pub open spec fn data_codewords(ver: int, ecl: EccLevel) -> int {
    raw_data_modules(ver) / 8 - ecc_codewords_rows()[ecc_index(ecl)][ver]
        * error_correction_blocks_rows()[ecc_index(ecl)][ver]
}

/// `t` holds the rows `rows`, four of 41 entries each.
pub open spec fn table_matches(t: Seq<Vec<i8>>, rows: Seq<Seq<int>>) -> bool {
    &&& t.len() == 4
    &&& rows.len() == 4
    &&& forall|e: int| 0 <= e < 4 ==> (#[trigger] t[e])@.len() == 41 && rows[e].len() == 41
    &&& forall|e: int, v: int| 0 <= e < 4 && 0 <= v < 41 ==> (#[trigger] t[e]@[v]) as int == rows[e][v]
}

/// Error correction codewords in each block, by error correction level (low, medium, quartile, high)
/// and then by version; index 0 is unused.
pub open spec fn ecc_codewords_rows() -> Seq<Seq<int>> {
    seq![
        seq![
            -1, 7, 10, 15, 20, 26, 18, 20, 24, 30, 18, 20, 24, 26, 30, 22, 24, 28, 30, 28, 28,
            28, 28, 30, 30, 26, 28, 30, 30, 30, 30, 30, 30, 30, 30, 30, 30, 30, 30, 30, 30,
        ],
        seq![
            -1, 10, 16, 26, 18, 24, 16, 18, 22, 22, 26, 30, 22, 22, 24, 24, 28, 28, 26, 26, 26,
            26, 28, 28, 28, 28, 28, 28, 28, 28, 28, 28, 28, 28, 28, 28, 28, 28, 28, 28, 28,
        ],
        seq![
            -1, 13, 22, 18, 26, 18, 24, 18, 22, 20, 24, 28, 26, 24, 20, 30, 24, 28, 28, 26, 30,
            28, 30, 30, 30, 30, 28, 30, 30, 30, 30, 30, 30, 30, 30, 30, 30, 30, 30, 30, 30,
        ],
        seq![
            -1, 17, 28, 22, 16, 22, 28, 26, 26, 24, 28, 24, 28, 22, 24, 24, 30, 28, 28, 26, 28,
            30, 24, 30, 30, 30, 30, 30, 30, 30, 30, 30, 30, 30, 30, 30, 30, 30, 30, 30, 30,
        ],
    ]
}

/// Number of error correction blocks, by error correction level (low, medium, quartile, high)
/// and then by version; index 0 is unused.
pub open spec fn error_correction_blocks_rows() -> Seq<Seq<int>> {
    seq![
        seq![
            -1, 1, 1, 1, 1, 1, 2, 2, 2, 2, 4, 4, 4, 4, 4, 6, 6, 6, 6, 7, 8, 8, 9, 9, 10, 12,
            12, 12, 13, 14, 15, 16, 17, 18, 19, 19, 20, 21, 22, 24, 25,
        ],
        seq![
            -1, 1, 1, 1, 2, 2, 4, 4, 4, 5, 5, 5, 8, 9, 9, 10, 10, 11, 13, 14, 16, 17, 17, 18,
            20, 21, 23, 25, 26, 28, 29, 31, 33, 35, 37, 38, 40, 43, 45, 47, 49,
        ],
        seq![
            -1, 1, 1, 2, 2, 4, 4, 6, 6, 8, 8, 8, 10, 12, 16, 12, 17, 16, 18, 21, 20, 23, 23,
            25, 27, 29, 34, 34, 35, 38, 40, 43, 45, 48, 51, 53, 56, 59, 62, 65, 68,
        ],
        seq![
            -1, 1, 1, 2, 4, 4, 4, 5, 6, 8, 8, 11, 11, 16, 16, 18, 16, 19, 21, 25, 25, 25, 34,
            30, 32, 35, 37, 40, 42, 45, 48, 51, 54, 57, 60, 63, 66, 70, 74, 77, 81,
        ],
    ]
}

/// The table of error correction codewords in each block.
fn ecc_codewords_table() -> (r: Vec<Vec<i8>>)
    ensures
        table_matches(r@, ecc_codewords_rows()),
{
    let r: Vec<Vec<i8>> = vec![
        vec![
            -1, 7, 10, 15, 20, 26, 18, 20, 24, 30, 18, 20, 24, 26, 30, 22, 24, 28, 30, 28, 28,
            28, 28, 30, 30, 26, 28, 30, 30, 30, 30, 30, 30, 30, 30, 30, 30, 30, 30, 30, 30,
        ],
        vec![
            -1, 10, 16, 26, 18, 24, 16, 18, 22, 22, 26, 30, 22, 22, 24, 24, 28, 28, 26, 26, 26,
            26, 28, 28, 28, 28, 28, 28, 28, 28, 28, 28, 28, 28, 28, 28, 28, 28, 28, 28, 28,
        ],
        vec![
            -1, 13, 22, 18, 26, 18, 24, 18, 22, 20, 24, 28, 26, 24, 20, 30, 24, 28, 28, 26, 30,
            28, 30, 30, 30, 30, 28, 30, 30, 30, 30, 30, 30, 30, 30, 30, 30, 30, 30, 30, 30,
        ],
        vec![
            -1, 17, 28, 22, 16, 22, 28, 26, 26, 24, 28, 24, 28, 22, 24, 24, 30, 28, 28, 26, 28,
            30, 24, 30, 30, 30, 30, 30, 30, 30, 30, 30, 30, 30, 30, 30, 30, 30, 30, 30, 30,
        ],
    ];
    proof {
        assert(r@[0]@.map_values(|x: i8| x as int) =~= ecc_codewords_rows()[0]);
        assert(r@[1]@.map_values(|x: i8| x as int) =~= ecc_codewords_rows()[1]);
        assert(r@[2]@.map_values(|x: i8| x as int) =~= ecc_codewords_rows()[2]);
        assert(r@[3]@.map_values(|x: i8| x as int) =~= ecc_codewords_rows()[3]);
    }
    r
}

/// The table of the number of error correction blocks.
fn error_correction_blocks_table() -> (r: Vec<Vec<i8>>)
    ensures
        table_matches(r@, error_correction_blocks_rows()),
{
    let r: Vec<Vec<i8>> = vec![
        vec![
            -1, 1, 1, 1, 1, 1, 2, 2, 2, 2, 4, 4, 4, 4, 4, 6, 6, 6, 6, 7, 8, 8, 9, 9, 10, 12,
            12, 12, 13, 14, 15, 16, 17, 18, 19, 19, 20, 21, 22, 24, 25,
        ],
        vec![
            -1, 1, 1, 1, 2, 2, 4, 4, 4, 5, 5, 5, 8, 9, 9, 10, 10, 11, 13, 14, 16, 17, 17, 18,
            20, 21, 23, 25, 26, 28, 29, 31, 33, 35, 37, 38, 40, 43, 45, 47, 49,
        ],
        vec![
            -1, 1, 1, 2, 2, 4, 4, 6, 6, 8, 8, 8, 10, 12, 16, 12, 17, 16, 18, 21, 20, 23, 23,
            25, 27, 29, 34, 34, 35, 38, 40, 43, 45, 48, 51, 53, 56, 59, 62, 65, 68,
        ],
        vec![
            -1, 1, 1, 2, 4, 4, 4, 5, 6, 8, 8, 11, 11, 16, 16, 18, 16, 19, 21, 25, 25, 25, 34,
            30, 32, 35, 37, 40, 42, 45, 48, 51, 54, 57, 60, 63, 66, 70, 74, 77, 81,
        ],
    ];
    proof {
        assert(r@[0]@.map_values(|x: i8| x as int) =~= error_correction_blocks_rows()[0]);
        assert(r@[1]@.map_values(|x: i8| x as int) =~= error_correction_blocks_rows()[1]);
        assert(r@[2]@.map_values(|x: i8| x as int) =~= error_correction_blocks_rows()[2]);
        assert(r@[3]@.map_values(|x: i8| x as int) =~= error_correction_blocks_rows()[3]);
    }
    r
}

/// For every version, the raw data modules lie in [208, 29648] and hold at
/// least the error correction codewords of every level.
#[verifier::spinoff_prover]
#[verifier::rlimit(50)]
pub proof fn lemma_capacity(ver: int, e: int)
    requires
        1 <= ver <= 40,
        0 <= e < 4,
    ensures
        208 <= raw_data_modules(ver) <= 29648,
        1 <= ecc_codewords_rows()[e][ver] <= 30,
        1 <= error_correction_blocks_rows()[e][ver] <= 81,
        ecc_codewords_rows()[e][ver] * error_correction_blocks_rows()[e][ver] < raw_data_modules(ver) / 8,
{
    let a = ecc_codewords_rows();
    let b = error_correction_blocks_rows();
    if ver == 1 {
        assert(raw_data_modules(1) == 208) by (nonlinear_arith);
        if e == 0 {
            assert(a[0][1] == 7 && b[0][1] == 1);
            assert(a[0][1] * b[0][1] == 7) by (nonlinear_arith)
                requires
                    a[0][1] == 7 && b[0][1] == 1,
            ;
        } else if e == 1 {
            assert(a[1][1] == 10 && b[1][1] == 1);
            assert(a[1][1] * b[1][1] == 10) by (nonlinear_arith)
                requires
                    a[1][1] == 10 && b[1][1] == 1,
            ;
        } else if e == 2 {
            assert(a[2][1] == 13 && b[2][1] == 1);
            assert(a[2][1] * b[2][1] == 13) by (nonlinear_arith)
                requires
                    a[2][1] == 13 && b[2][1] == 1,
            ;
        } else {
            assert(a[3][1] == 17 && b[3][1] == 1);
            assert(a[3][1] * b[3][1] == 17) by (nonlinear_arith)
                requires
                    a[3][1] == 17 && b[3][1] == 1,
            ;
        }
    } else if ver == 2 {
        assert(raw_data_modules(2) == 359) by (nonlinear_arith);
        if e == 0 {
            assert(a[0][2] == 10 && b[0][2] == 1);
            assert(a[0][2] * b[0][2] == 10) by (nonlinear_arith)
                requires
                    a[0][2] == 10 && b[0][2] == 1,
            ;
        } else if e == 1 {
            assert(a[1][2] == 16 && b[1][2] == 1);
            assert(a[1][2] * b[1][2] == 16) by (nonlinear_arith)
                requires
                    a[1][2] == 16 && b[1][2] == 1,
            ;
        } else if e == 2 {
            assert(a[2][2] == 22 && b[2][2] == 1);
            assert(a[2][2] * b[2][2] == 22) by (nonlinear_arith)
                requires
                    a[2][2] == 22 && b[2][2] == 1,
            ;
        } else {
            assert(a[3][2] == 28 && b[3][2] == 1);
            assert(a[3][2] * b[3][2] == 28) by (nonlinear_arith)
                requires
                    a[3][2] == 28 && b[3][2] == 1,
            ;
        }
    } else if ver == 3 {
        assert(raw_data_modules(3) == 567) by (nonlinear_arith);
        if e == 0 {
            assert(a[0][3] == 15 && b[0][3] == 1);
            assert(a[0][3] * b[0][3] == 15) by (nonlinear_arith)
                requires
                    a[0][3] == 15 && b[0][3] == 1,
            ;
        } else if e == 1 {
            assert(a[1][3] == 26 && b[1][3] == 1);
            assert(a[1][3] * b[1][3] == 26) by (nonlinear_arith)
                requires
                    a[1][3] == 26 && b[1][3] == 1,
            ;
        } else if e == 2 {
            assert(a[2][3] == 18 && b[2][3] == 2);
            assert(a[2][3] * b[2][3] == 36) by (nonlinear_arith)
                requires
                    a[2][3] == 18 && b[2][3] == 2,
            ;
        } else {
            assert(a[3][3] == 22 && b[3][3] == 2);
            assert(a[3][3] * b[3][3] == 44) by (nonlinear_arith)
                requires
                    a[3][3] == 22 && b[3][3] == 2,
            ;
        }
    } else if ver == 4 {
        assert(raw_data_modules(4) == 807) by (nonlinear_arith);
        if e == 0 {
            assert(a[0][4] == 20 && b[0][4] == 1);
            assert(a[0][4] * b[0][4] == 20) by (nonlinear_arith)
                requires
                    a[0][4] == 20 && b[0][4] == 1,
            ;
        } else if e == 1 {
            assert(a[1][4] == 18 && b[1][4] == 2);
            assert(a[1][4] * b[1][4] == 36) by (nonlinear_arith)
                requires
                    a[1][4] == 18 && b[1][4] == 2,
            ;
        } else if e == 2 {
            assert(a[2][4] == 26 && b[2][4] == 2);
            assert(a[2][4] * b[2][4] == 52) by (nonlinear_arith)
                requires
                    a[2][4] == 26 && b[2][4] == 2,
            ;
        } else {
            assert(a[3][4] == 16 && b[3][4] == 4);
            assert(a[3][4] * b[3][4] == 64) by (nonlinear_arith)
                requires
                    a[3][4] == 16 && b[3][4] == 4,
            ;
        }
    } else if ver == 5 {
        assert(raw_data_modules(5) == 1079) by (nonlinear_arith);
        if e == 0 {
            assert(a[0][5] == 26 && b[0][5] == 1);
            assert(a[0][5] * b[0][5] == 26) by (nonlinear_arith)
                requires
                    a[0][5] == 26 && b[0][5] == 1,
            ;
        } else if e == 1 {
            assert(a[1][5] == 24 && b[1][5] == 2);
            assert(a[1][5] * b[1][5] == 48) by (nonlinear_arith)
                requires
                    a[1][5] == 24 && b[1][5] == 2,
            ;
        } else if e == 2 {
            assert(a[2][5] == 18 && b[2][5] == 4);
            assert(a[2][5] * b[2][5] == 72) by (nonlinear_arith)
                requires
                    a[2][5] == 18 && b[2][5] == 4,
            ;
        } else {
            assert(a[3][5] == 22 && b[3][5] == 4);
            assert(a[3][5] * b[3][5] == 88) by (nonlinear_arith)
                requires
                    a[3][5] == 22 && b[3][5] == 4,
            ;
        }
    } else if ver == 6 {
        assert(raw_data_modules(6) == 1383) by (nonlinear_arith);
        if e == 0 {
            assert(a[0][6] == 18 && b[0][6] == 2);
            assert(a[0][6] * b[0][6] == 36) by (nonlinear_arith)
                requires
                    a[0][6] == 18 && b[0][6] == 2,
            ;
        } else if e == 1 {
            assert(a[1][6] == 16 && b[1][6] == 4);
            assert(a[1][6] * b[1][6] == 64) by (nonlinear_arith)
                requires
                    a[1][6] == 16 && b[1][6] == 4,
            ;
        } else if e == 2 {
            assert(a[2][6] == 24 && b[2][6] == 4);
            assert(a[2][6] * b[2][6] == 96) by (nonlinear_arith)
                requires
                    a[2][6] == 24 && b[2][6] == 4,
            ;
        } else {
            assert(a[3][6] == 28 && b[3][6] == 4);
            assert(a[3][6] * b[3][6] == 112) by (nonlinear_arith)
                requires
                    a[3][6] == 28 && b[3][6] == 4,
            ;
        }
    } else if ver == 7 {
        assert(raw_data_modules(7) == 1568) by (nonlinear_arith);
        if e == 0 {
            assert(a[0][7] == 20 && b[0][7] == 2);
            assert(a[0][7] * b[0][7] == 40) by (nonlinear_arith)
                requires
                    a[0][7] == 20 && b[0][7] == 2,
            ;
        } else if e == 1 {
            assert(a[1][7] == 18 && b[1][7] == 4);
            assert(a[1][7] * b[1][7] == 72) by (nonlinear_arith)
                requires
                    a[1][7] == 18 && b[1][7] == 4,
            ;
        } else if e == 2 {
            assert(a[2][7] == 18 && b[2][7] == 6);
            assert(a[2][7] * b[2][7] == 108) by (nonlinear_arith)
                requires
                    a[2][7] == 18 && b[2][7] == 6,
            ;
        } else {
            assert(a[3][7] == 26 && b[3][7] == 5);
            assert(a[3][7] * b[3][7] == 130) by (nonlinear_arith)
                requires
                    a[3][7] == 26 && b[3][7] == 5,
            ;
        }
    } else if ver == 8 {
        assert(raw_data_modules(8) == 1936) by (nonlinear_arith);
        if e == 0 {
            assert(a[0][8] == 24 && b[0][8] == 2);
            assert(a[0][8] * b[0][8] == 48) by (nonlinear_arith)
                requires
                    a[0][8] == 24 && b[0][8] == 2,
            ;
        } else if e == 1 {
            assert(a[1][8] == 22 && b[1][8] == 4);
            assert(a[1][8] * b[1][8] == 88) by (nonlinear_arith)
                requires
                    a[1][8] == 22 && b[1][8] == 4,
            ;
        } else if e == 2 {
            assert(a[2][8] == 22 && b[2][8] == 6);
            assert(a[2][8] * b[2][8] == 132) by (nonlinear_arith)
                requires
                    a[2][8] == 22 && b[2][8] == 6,
            ;
        } else {
            assert(a[3][8] == 26 && b[3][8] == 6);
            assert(a[3][8] * b[3][8] == 156) by (nonlinear_arith)
                requires
                    a[3][8] == 26 && b[3][8] == 6,
            ;
        }
    } else if ver == 9 {
        assert(raw_data_modules(9) == 2336) by (nonlinear_arith);
        if e == 0 {
            assert(a[0][9] == 30 && b[0][9] == 2);
            assert(a[0][9] * b[0][9] == 60) by (nonlinear_arith)
                requires
                    a[0][9] == 30 && b[0][9] == 2,
            ;
        } else if e == 1 {
            assert(a[1][9] == 22 && b[1][9] == 5);
            assert(a[1][9] * b[1][9] == 110) by (nonlinear_arith)
                requires
                    a[1][9] == 22 && b[1][9] == 5,
            ;
        } else if e == 2 {
            assert(a[2][9] == 20 && b[2][9] == 8);
            assert(a[2][9] * b[2][9] == 160) by (nonlinear_arith)
                requires
                    a[2][9] == 20 && b[2][9] == 8,
            ;
        } else {
            assert(a[3][9] == 24 && b[3][9] == 8);
            assert(a[3][9] * b[3][9] == 192) by (nonlinear_arith)
                requires
                    a[3][9] == 24 && b[3][9] == 8,
            ;
        }
    } else if ver == 10 {
        assert(raw_data_modules(10) == 2768) by (nonlinear_arith);
        if e == 0 {
            assert(a[0][10] == 18 && b[0][10] == 4);
            assert(a[0][10] * b[0][10] == 72) by (nonlinear_arith)
                requires
                    a[0][10] == 18 && b[0][10] == 4,
            ;
        } else if e == 1 {
            assert(a[1][10] == 26 && b[1][10] == 5);
            assert(a[1][10] * b[1][10] == 130) by (nonlinear_arith)
                requires
                    a[1][10] == 26 && b[1][10] == 5,
            ;
        } else if e == 2 {
            assert(a[2][10] == 24 && b[2][10] == 8);
            assert(a[2][10] * b[2][10] == 192) by (nonlinear_arith)
                requires
                    a[2][10] == 24 && b[2][10] == 8,
            ;
        } else {
            assert(a[3][10] == 28 && b[3][10] == 8);
            assert(a[3][10] * b[3][10] == 224) by (nonlinear_arith)
                requires
                    a[3][10] == 28 && b[3][10] == 8,
            ;
        }
    } else if ver == 11 {
        assert(raw_data_modules(11) == 3232) by (nonlinear_arith);
        if e == 0 {
            assert(a[0][11] == 20 && b[0][11] == 4);
            assert(a[0][11] * b[0][11] == 80) by (nonlinear_arith)
                requires
                    a[0][11] == 20 && b[0][11] == 4,
            ;
        } else if e == 1 {
            assert(a[1][11] == 30 && b[1][11] == 5);
            assert(a[1][11] * b[1][11] == 150) by (nonlinear_arith)
                requires
                    a[1][11] == 30 && b[1][11] == 5,
            ;
        } else if e == 2 {
            assert(a[2][11] == 28 && b[2][11] == 8);
            assert(a[2][11] * b[2][11] == 224) by (nonlinear_arith)
                requires
                    a[2][11] == 28 && b[2][11] == 8,
            ;
        } else {
            assert(a[3][11] == 24 && b[3][11] == 11);
            assert(a[3][11] * b[3][11] == 264) by (nonlinear_arith)
                requires
                    a[3][11] == 24 && b[3][11] == 11,
            ;
        }
    } else if ver == 12 {
        assert(raw_data_modules(12) == 3728) by (nonlinear_arith);
        if e == 0 {
            assert(a[0][12] == 24 && b[0][12] == 4);
            assert(a[0][12] * b[0][12] == 96) by (nonlinear_arith)
                requires
                    a[0][12] == 24 && b[0][12] == 4,
            ;
        } else if e == 1 {
            assert(a[1][12] == 22 && b[1][12] == 8);
            assert(a[1][12] * b[1][12] == 176) by (nonlinear_arith)
                requires
                    a[1][12] == 22 && b[1][12] == 8,
            ;
        } else if e == 2 {
            assert(a[2][12] == 26 && b[2][12] == 10);
            assert(a[2][12] * b[2][12] == 260) by (nonlinear_arith)
                requires
                    a[2][12] == 26 && b[2][12] == 10,
            ;
        } else {
            assert(a[3][12] == 28 && b[3][12] == 11);
            assert(a[3][12] * b[3][12] == 308) by (nonlinear_arith)
                requires
                    a[3][12] == 28 && b[3][12] == 11,
            ;
        }
    } else if ver == 13 {
        assert(raw_data_modules(13) == 4256) by (nonlinear_arith);
        if e == 0 {
            assert(a[0][13] == 26 && b[0][13] == 4);
            assert(a[0][13] * b[0][13] == 104) by (nonlinear_arith)
                requires
                    a[0][13] == 26 && b[0][13] == 4,
            ;
        } else if e == 1 {
            assert(a[1][13] == 22 && b[1][13] == 9);
            assert(a[1][13] * b[1][13] == 198) by (nonlinear_arith)
                requires
                    a[1][13] == 22 && b[1][13] == 9,
            ;
        } else if e == 2 {
            assert(a[2][13] == 24 && b[2][13] == 12);
            assert(a[2][13] * b[2][13] == 288) by (nonlinear_arith)
                requires
                    a[2][13] == 24 && b[2][13] == 12,
            ;
        } else {
            assert(a[3][13] == 22 && b[3][13] == 16);
            assert(a[3][13] * b[3][13] == 352) by (nonlinear_arith)
                requires
                    a[3][13] == 22 && b[3][13] == 16,
            ;
        }
    } else if ver == 14 {
        assert(raw_data_modules(14) == 4651) by (nonlinear_arith);
        if e == 0 {
            assert(a[0][14] == 30 && b[0][14] == 4);
            assert(a[0][14] * b[0][14] == 120) by (nonlinear_arith)
                requires
                    a[0][14] == 30 && b[0][14] == 4,
            ;
        } else if e == 1 {
            assert(a[1][14] == 24 && b[1][14] == 9);
            assert(a[1][14] * b[1][14] == 216) by (nonlinear_arith)
                requires
                    a[1][14] == 24 && b[1][14] == 9,
            ;
        } else if e == 2 {
            assert(a[2][14] == 20 && b[2][14] == 16);
            assert(a[2][14] * b[2][14] == 320) by (nonlinear_arith)
                requires
                    a[2][14] == 20 && b[2][14] == 16,
            ;
        } else {
            assert(a[3][14] == 24 && b[3][14] == 16);
            assert(a[3][14] * b[3][14] == 384) by (nonlinear_arith)
                requires
                    a[3][14] == 24 && b[3][14] == 16,
            ;
        }
    } else if ver == 15 {
        assert(raw_data_modules(15) == 5243) by (nonlinear_arith);
        if e == 0 {
            assert(a[0][15] == 22 && b[0][15] == 6);
            assert(a[0][15] * b[0][15] == 132) by (nonlinear_arith)
                requires
                    a[0][15] == 22 && b[0][15] == 6,
            ;
        } else if e == 1 {
            assert(a[1][15] == 24 && b[1][15] == 10);
            assert(a[1][15] * b[1][15] == 240) by (nonlinear_arith)
                requires
                    a[1][15] == 24 && b[1][15] == 10,
            ;
        } else if e == 2 {
            assert(a[2][15] == 30 && b[2][15] == 12);
            assert(a[2][15] * b[2][15] == 360) by (nonlinear_arith)
                requires
                    a[2][15] == 30 && b[2][15] == 12,
            ;
        } else {
            assert(a[3][15] == 24 && b[3][15] == 18);
            assert(a[3][15] * b[3][15] == 432) by (nonlinear_arith)
                requires
                    a[3][15] == 24 && b[3][15] == 18,
            ;
        }
    } else if ver == 16 {
        assert(raw_data_modules(16) == 5867) by (nonlinear_arith);
        if e == 0 {
            assert(a[0][16] == 24 && b[0][16] == 6);
            assert(a[0][16] * b[0][16] == 144) by (nonlinear_arith)
                requires
                    a[0][16] == 24 && b[0][16] == 6,
            ;
        } else if e == 1 {
            assert(a[1][16] == 28 && b[1][16] == 10);
            assert(a[1][16] * b[1][16] == 280) by (nonlinear_arith)
                requires
                    a[1][16] == 28 && b[1][16] == 10,
            ;
        } else if e == 2 {
            assert(a[2][16] == 24 && b[2][16] == 17);
            assert(a[2][16] * b[2][16] == 408) by (nonlinear_arith)
                requires
                    a[2][16] == 24 && b[2][16] == 17,
            ;
        } else {
            assert(a[3][16] == 30 && b[3][16] == 16);
            assert(a[3][16] * b[3][16] == 480) by (nonlinear_arith)
                requires
                    a[3][16] == 30 && b[3][16] == 16,
            ;
        }
    } else if ver == 17 {
        assert(raw_data_modules(17) == 6523) by (nonlinear_arith);
        if e == 0 {
            assert(a[0][17] == 28 && b[0][17] == 6);
            assert(a[0][17] * b[0][17] == 168) by (nonlinear_arith)
                requires
                    a[0][17] == 28 && b[0][17] == 6,
            ;
        } else if e == 1 {
            assert(a[1][17] == 28 && b[1][17] == 11);
            assert(a[1][17] * b[1][17] == 308) by (nonlinear_arith)
                requires
                    a[1][17] == 28 && b[1][17] == 11,
            ;
        } else if e == 2 {
            assert(a[2][17] == 28 && b[2][17] == 16);
            assert(a[2][17] * b[2][17] == 448) by (nonlinear_arith)
                requires
                    a[2][17] == 28 && b[2][17] == 16,
            ;
        } else {
            assert(a[3][17] == 28 && b[3][17] == 19);
            assert(a[3][17] * b[3][17] == 532) by (nonlinear_arith)
                requires
                    a[3][17] == 28 && b[3][17] == 19,
            ;
        }
    } else if ver == 18 {
        assert(raw_data_modules(18) == 7211) by (nonlinear_arith);
        if e == 0 {
            assert(a[0][18] == 30 && b[0][18] == 6);
            assert(a[0][18] * b[0][18] == 180) by (nonlinear_arith)
                requires
                    a[0][18] == 30 && b[0][18] == 6,
            ;
        } else if e == 1 {
            assert(a[1][18] == 26 && b[1][18] == 13);
            assert(a[1][18] * b[1][18] == 338) by (nonlinear_arith)
                requires
                    a[1][18] == 26 && b[1][18] == 13,
            ;
        } else if e == 2 {
            assert(a[2][18] == 28 && b[2][18] == 18);
            assert(a[2][18] * b[2][18] == 504) by (nonlinear_arith)
                requires
                    a[2][18] == 28 && b[2][18] == 18,
            ;
        } else {
            assert(a[3][18] == 28 && b[3][18] == 21);
            assert(a[3][18] * b[3][18] == 588) by (nonlinear_arith)
                requires
                    a[3][18] == 28 && b[3][18] == 21,
            ;
        }
    } else if ver == 19 {
        assert(raw_data_modules(19) == 7931) by (nonlinear_arith);
        if e == 0 {
            assert(a[0][19] == 28 && b[0][19] == 7);
            assert(a[0][19] * b[0][19] == 196) by (nonlinear_arith)
                requires
                    a[0][19] == 28 && b[0][19] == 7,
            ;
        } else if e == 1 {
            assert(a[1][19] == 26 && b[1][19] == 14);
            assert(a[1][19] * b[1][19] == 364) by (nonlinear_arith)
                requires
                    a[1][19] == 26 && b[1][19] == 14,
            ;
        } else if e == 2 {
            assert(a[2][19] == 26 && b[2][19] == 21);
            assert(a[2][19] * b[2][19] == 546) by (nonlinear_arith)
                requires
                    a[2][19] == 26 && b[2][19] == 21,
            ;
        } else {
            assert(a[3][19] == 26 && b[3][19] == 25);
            assert(a[3][19] * b[3][19] == 650) by (nonlinear_arith)
                requires
                    a[3][19] == 26 && b[3][19] == 25,
            ;
        }
    } else if ver == 20 {
        assert(raw_data_modules(20) == 8683) by (nonlinear_arith);
        if e == 0 {
            assert(a[0][20] == 28 && b[0][20] == 8);
            assert(a[0][20] * b[0][20] == 224) by (nonlinear_arith)
                requires
                    a[0][20] == 28 && b[0][20] == 8,
            ;
        } else if e == 1 {
            assert(a[1][20] == 26 && b[1][20] == 16);
            assert(a[1][20] * b[1][20] == 416) by (nonlinear_arith)
                requires
                    a[1][20] == 26 && b[1][20] == 16,
            ;
        } else if e == 2 {
            assert(a[2][20] == 30 && b[2][20] == 20);
            assert(a[2][20] * b[2][20] == 600) by (nonlinear_arith)
                requires
                    a[2][20] == 30 && b[2][20] == 20,
            ;
        } else {
            assert(a[3][20] == 28 && b[3][20] == 25);
            assert(a[3][20] * b[3][20] == 700) by (nonlinear_arith)
                requires
                    a[3][20] == 28 && b[3][20] == 25,
            ;
        }
    } else if ver == 21 {
        assert(raw_data_modules(21) == 9252) by (nonlinear_arith);
        if e == 0 {
            assert(a[0][21] == 28 && b[0][21] == 8);
            assert(a[0][21] * b[0][21] == 224) by (nonlinear_arith)
                requires
                    a[0][21] == 28 && b[0][21] == 8,
            ;
        } else if e == 1 {
            assert(a[1][21] == 26 && b[1][21] == 17);
            assert(a[1][21] * b[1][21] == 442) by (nonlinear_arith)
                requires
                    a[1][21] == 26 && b[1][21] == 17,
            ;
        } else if e == 2 {
            assert(a[2][21] == 28 && b[2][21] == 23);
            assert(a[2][21] * b[2][21] == 644) by (nonlinear_arith)
                requires
                    a[2][21] == 28 && b[2][21] == 23,
            ;
        } else {
            assert(a[3][21] == 30 && b[3][21] == 25);
            assert(a[3][21] * b[3][21] == 750) by (nonlinear_arith)
                requires
                    a[3][21] == 30 && b[3][21] == 25,
            ;
        }
    } else if ver == 22 {
        assert(raw_data_modules(22) == 10068) by (nonlinear_arith);
        if e == 0 {
            assert(a[0][22] == 28 && b[0][22] == 9);
            assert(a[0][22] * b[0][22] == 252) by (nonlinear_arith)
                requires
                    a[0][22] == 28 && b[0][22] == 9,
            ;
        } else if e == 1 {
            assert(a[1][22] == 28 && b[1][22] == 17);
            assert(a[1][22] * b[1][22] == 476) by (nonlinear_arith)
                requires
                    a[1][22] == 28 && b[1][22] == 17,
            ;
        } else if e == 2 {
            assert(a[2][22] == 30 && b[2][22] == 23);
            assert(a[2][22] * b[2][22] == 690) by (nonlinear_arith)
                requires
                    a[2][22] == 30 && b[2][22] == 23,
            ;
        } else {
            assert(a[3][22] == 24 && b[3][22] == 34);
            assert(a[3][22] * b[3][22] == 816) by (nonlinear_arith)
                requires
                    a[3][22] == 24 && b[3][22] == 34,
            ;
        }
    } else if ver == 23 {
        assert(raw_data_modules(23) == 10916) by (nonlinear_arith);
        if e == 0 {
            assert(a[0][23] == 30 && b[0][23] == 9);
            assert(a[0][23] * b[0][23] == 270) by (nonlinear_arith)
                requires
                    a[0][23] == 30 && b[0][23] == 9,
            ;
        } else if e == 1 {
            assert(a[1][23] == 28 && b[1][23] == 18);
            assert(a[1][23] * b[1][23] == 504) by (nonlinear_arith)
                requires
                    a[1][23] == 28 && b[1][23] == 18,
            ;
        } else if e == 2 {
            assert(a[2][23] == 30 && b[2][23] == 25);
            assert(a[2][23] * b[2][23] == 750) by (nonlinear_arith)
                requires
                    a[2][23] == 30 && b[2][23] == 25,
            ;
        } else {
            assert(a[3][23] == 30 && b[3][23] == 30);
            assert(a[3][23] * b[3][23] == 900) by (nonlinear_arith)
                requires
                    a[3][23] == 30 && b[3][23] == 30,
            ;
        }
    } else if ver == 24 {
        assert(raw_data_modules(24) == 11796) by (nonlinear_arith);
        if e == 0 {
            assert(a[0][24] == 30 && b[0][24] == 10);
            assert(a[0][24] * b[0][24] == 300) by (nonlinear_arith)
                requires
                    a[0][24] == 30 && b[0][24] == 10,
            ;
        } else if e == 1 {
            assert(a[1][24] == 28 && b[1][24] == 20);
            assert(a[1][24] * b[1][24] == 560) by (nonlinear_arith)
                requires
                    a[1][24] == 28 && b[1][24] == 20,
            ;
        } else if e == 2 {
            assert(a[2][24] == 30 && b[2][24] == 27);
            assert(a[2][24] * b[2][24] == 810) by (nonlinear_arith)
                requires
                    a[2][24] == 30 && b[2][24] == 27,
            ;
        } else {
            assert(a[3][24] == 30 && b[3][24] == 32);
            assert(a[3][24] * b[3][24] == 960) by (nonlinear_arith)
                requires
                    a[3][24] == 30 && b[3][24] == 32,
            ;
        }
    } else if ver == 25 {
        assert(raw_data_modules(25) == 12708) by (nonlinear_arith);
        if e == 0 {
            assert(a[0][25] == 26 && b[0][25] == 12);
            assert(a[0][25] * b[0][25] == 312) by (nonlinear_arith)
                requires
                    a[0][25] == 26 && b[0][25] == 12,
            ;
        } else if e == 1 {
            assert(a[1][25] == 28 && b[1][25] == 21);
            assert(a[1][25] * b[1][25] == 588) by (nonlinear_arith)
                requires
                    a[1][25] == 28 && b[1][25] == 21,
            ;
        } else if e == 2 {
            assert(a[2][25] == 30 && b[2][25] == 29);
            assert(a[2][25] * b[2][25] == 870) by (nonlinear_arith)
                requires
                    a[2][25] == 30 && b[2][25] == 29,
            ;
        } else {
            assert(a[3][25] == 30 && b[3][25] == 35);
            assert(a[3][25] * b[3][25] == 1050) by (nonlinear_arith)
                requires
                    a[3][25] == 30 && b[3][25] == 35,
            ;
        }
    } else if ver == 26 {
        assert(raw_data_modules(26) == 13652) by (nonlinear_arith);
        if e == 0 {
            assert(a[0][26] == 28 && b[0][26] == 12);
            assert(a[0][26] * b[0][26] == 336) by (nonlinear_arith)
                requires
                    a[0][26] == 28 && b[0][26] == 12,
            ;
        } else if e == 1 {
            assert(a[1][26] == 28 && b[1][26] == 23);
            assert(a[1][26] * b[1][26] == 644) by (nonlinear_arith)
                requires
                    a[1][26] == 28 && b[1][26] == 23,
            ;
        } else if e == 2 {
            assert(a[2][26] == 28 && b[2][26] == 34);
            assert(a[2][26] * b[2][26] == 952) by (nonlinear_arith)
                requires
                    a[2][26] == 28 && b[2][26] == 34,
            ;
        } else {
            assert(a[3][26] == 30 && b[3][26] == 37);
            assert(a[3][26] * b[3][26] == 1110) by (nonlinear_arith)
                requires
                    a[3][26] == 30 && b[3][26] == 37,
            ;
        }
    } else if ver == 27 {
        assert(raw_data_modules(27) == 14628) by (nonlinear_arith);
        if e == 0 {
            assert(a[0][27] == 30 && b[0][27] == 12);
            assert(a[0][27] * b[0][27] == 360) by (nonlinear_arith)
                requires
                    a[0][27] == 30 && b[0][27] == 12,
            ;
        } else if e == 1 {
            assert(a[1][27] == 28 && b[1][27] == 25);
            assert(a[1][27] * b[1][27] == 700) by (nonlinear_arith)
                requires
                    a[1][27] == 28 && b[1][27] == 25,
            ;
        } else if e == 2 {
            assert(a[2][27] == 30 && b[2][27] == 34);
            assert(a[2][27] * b[2][27] == 1020) by (nonlinear_arith)
                requires
                    a[2][27] == 30 && b[2][27] == 34,
            ;
        } else {
            assert(a[3][27] == 30 && b[3][27] == 40);
            assert(a[3][27] * b[3][27] == 1200) by (nonlinear_arith)
                requires
                    a[3][27] == 30 && b[3][27] == 40,
            ;
        }
    } else if ver == 28 {
        assert(raw_data_modules(28) == 15371) by (nonlinear_arith);
        if e == 0 {
            assert(a[0][28] == 30 && b[0][28] == 13);
            assert(a[0][28] * b[0][28] == 390) by (nonlinear_arith)
                requires
                    a[0][28] == 30 && b[0][28] == 13,
            ;
        } else if e == 1 {
            assert(a[1][28] == 28 && b[1][28] == 26);
            assert(a[1][28] * b[1][28] == 728) by (nonlinear_arith)
                requires
                    a[1][28] == 28 && b[1][28] == 26,
            ;
        } else if e == 2 {
            assert(a[2][28] == 30 && b[2][28] == 35);
            assert(a[2][28] * b[2][28] == 1050) by (nonlinear_arith)
                requires
                    a[2][28] == 30 && b[2][28] == 35,
            ;
        } else {
            assert(a[3][28] == 30 && b[3][28] == 42);
            assert(a[3][28] * b[3][28] == 1260) by (nonlinear_arith)
                requires
                    a[3][28] == 30 && b[3][28] == 42,
            ;
        }
    } else if ver == 29 {
        assert(raw_data_modules(29) == 16411) by (nonlinear_arith);
        if e == 0 {
            assert(a[0][29] == 30 && b[0][29] == 14);
            assert(a[0][29] * b[0][29] == 420) by (nonlinear_arith)
                requires
                    a[0][29] == 30 && b[0][29] == 14,
            ;
        } else if e == 1 {
            assert(a[1][29] == 28 && b[1][29] == 28);
            assert(a[1][29] * b[1][29] == 784) by (nonlinear_arith)
                requires
                    a[1][29] == 28 && b[1][29] == 28,
            ;
        } else if e == 2 {
            assert(a[2][29] == 30 && b[2][29] == 38);
            assert(a[2][29] * b[2][29] == 1140) by (nonlinear_arith)
                requires
                    a[2][29] == 30 && b[2][29] == 38,
            ;
        } else {
            assert(a[3][29] == 30 && b[3][29] == 45);
            assert(a[3][29] * b[3][29] == 1350) by (nonlinear_arith)
                requires
                    a[3][29] == 30 && b[3][29] == 45,
            ;
        }
    } else if ver == 30 {
        assert(raw_data_modules(30) == 17483) by (nonlinear_arith);
        if e == 0 {
            assert(a[0][30] == 30 && b[0][30] == 15);
            assert(a[0][30] * b[0][30] == 450) by (nonlinear_arith)
                requires
                    a[0][30] == 30 && b[0][30] == 15,
            ;
        } else if e == 1 {
            assert(a[1][30] == 28 && b[1][30] == 29);
            assert(a[1][30] * b[1][30] == 812) by (nonlinear_arith)
                requires
                    a[1][30] == 28 && b[1][30] == 29,
            ;
        } else if e == 2 {
            assert(a[2][30] == 30 && b[2][30] == 40);
            assert(a[2][30] * b[2][30] == 1200) by (nonlinear_arith)
                requires
                    a[2][30] == 30 && b[2][30] == 40,
            ;
        } else {
            assert(a[3][30] == 30 && b[3][30] == 48);
            assert(a[3][30] * b[3][30] == 1440) by (nonlinear_arith)
                requires
                    a[3][30] == 30 && b[3][30] == 48,
            ;
        }
    } else if ver == 31 {
        assert(raw_data_modules(31) == 18587) by (nonlinear_arith);
        if e == 0 {
            assert(a[0][31] == 30 && b[0][31] == 16);
            assert(a[0][31] * b[0][31] == 480) by (nonlinear_arith)
                requires
                    a[0][31] == 30 && b[0][31] == 16,
            ;
        } else if e == 1 {
            assert(a[1][31] == 28 && b[1][31] == 31);
            assert(a[1][31] * b[1][31] == 868) by (nonlinear_arith)
                requires
                    a[1][31] == 28 && b[1][31] == 31,
            ;
        } else if e == 2 {
            assert(a[2][31] == 30 && b[2][31] == 43);
            assert(a[2][31] * b[2][31] == 1290) by (nonlinear_arith)
                requires
                    a[2][31] == 30 && b[2][31] == 43,
            ;
        } else {
            assert(a[3][31] == 30 && b[3][31] == 51);
            assert(a[3][31] * b[3][31] == 1530) by (nonlinear_arith)
                requires
                    a[3][31] == 30 && b[3][31] == 51,
            ;
        }
    } else if ver == 32 {
        assert(raw_data_modules(32) == 19723) by (nonlinear_arith);
        if e == 0 {
            assert(a[0][32] == 30 && b[0][32] == 17);
            assert(a[0][32] * b[0][32] == 510) by (nonlinear_arith)
                requires
                    a[0][32] == 30 && b[0][32] == 17,
            ;
        } else if e == 1 {
            assert(a[1][32] == 28 && b[1][32] == 33);
            assert(a[1][32] * b[1][32] == 924) by (nonlinear_arith)
                requires
                    a[1][32] == 28 && b[1][32] == 33,
            ;
        } else if e == 2 {
            assert(a[2][32] == 30 && b[2][32] == 45);
            assert(a[2][32] * b[2][32] == 1350) by (nonlinear_arith)
                requires
                    a[2][32] == 30 && b[2][32] == 45,
            ;
        } else {
            assert(a[3][32] == 30 && b[3][32] == 54);
            assert(a[3][32] * b[3][32] == 1620) by (nonlinear_arith)
                requires
                    a[3][32] == 30 && b[3][32] == 54,
            ;
        }
    } else if ver == 33 {
        assert(raw_data_modules(33) == 20891) by (nonlinear_arith);
        if e == 0 {
            assert(a[0][33] == 30 && b[0][33] == 18);
            assert(a[0][33] * b[0][33] == 540) by (nonlinear_arith)
                requires
                    a[0][33] == 30 && b[0][33] == 18,
            ;
        } else if e == 1 {
            assert(a[1][33] == 28 && b[1][33] == 35);
            assert(a[1][33] * b[1][33] == 980) by (nonlinear_arith)
                requires
                    a[1][33] == 28 && b[1][33] == 35,
            ;
        } else if e == 2 {
            assert(a[2][33] == 30 && b[2][33] == 48);
            assert(a[2][33] * b[2][33] == 1440) by (nonlinear_arith)
                requires
                    a[2][33] == 30 && b[2][33] == 48,
            ;
        } else {
            assert(a[3][33] == 30 && b[3][33] == 57);
            assert(a[3][33] * b[3][33] == 1710) by (nonlinear_arith)
                requires
                    a[3][33] == 30 && b[3][33] == 57,
            ;
        }
    } else if ver == 34 {
        assert(raw_data_modules(34) == 22091) by (nonlinear_arith);
        if e == 0 {
            assert(a[0][34] == 30 && b[0][34] == 19);
            assert(a[0][34] * b[0][34] == 570) by (nonlinear_arith)
                requires
                    a[0][34] == 30 && b[0][34] == 19,
            ;
        } else if e == 1 {
            assert(a[1][34] == 28 && b[1][34] == 37);
            assert(a[1][34] * b[1][34] == 1036) by (nonlinear_arith)
                requires
                    a[1][34] == 28 && b[1][34] == 37,
            ;
        } else if e == 2 {
            assert(a[2][34] == 30 && b[2][34] == 51);
            assert(a[2][34] * b[2][34] == 1530) by (nonlinear_arith)
                requires
                    a[2][34] == 30 && b[2][34] == 51,
            ;
        } else {
            assert(a[3][34] == 30 && b[3][34] == 60);
            assert(a[3][34] * b[3][34] == 1800) by (nonlinear_arith)
                requires
                    a[3][34] == 30 && b[3][34] == 60,
            ;
        }
    } else if ver == 35 {
        assert(raw_data_modules(35) == 23008) by (nonlinear_arith);
        if e == 0 {
            assert(a[0][35] == 30 && b[0][35] == 19);
            assert(a[0][35] * b[0][35] == 570) by (nonlinear_arith)
                requires
                    a[0][35] == 30 && b[0][35] == 19,
            ;
        } else if e == 1 {
            assert(a[1][35] == 28 && b[1][35] == 38);
            assert(a[1][35] * b[1][35] == 1064) by (nonlinear_arith)
                requires
                    a[1][35] == 28 && b[1][35] == 38,
            ;
        } else if e == 2 {
            assert(a[2][35] == 30 && b[2][35] == 53);
            assert(a[2][35] * b[2][35] == 1590) by (nonlinear_arith)
                requires
                    a[2][35] == 30 && b[2][35] == 53,
            ;
        } else {
            assert(a[3][35] == 30 && b[3][35] == 63);
            assert(a[3][35] * b[3][35] == 1890) by (nonlinear_arith)
                requires
                    a[3][35] == 30 && b[3][35] == 63,
            ;
        }
    } else if ver == 36 {
        assert(raw_data_modules(36) == 24272) by (nonlinear_arith);
        if e == 0 {
            assert(a[0][36] == 30 && b[0][36] == 20);
            assert(a[0][36] * b[0][36] == 600) by (nonlinear_arith)
                requires
                    a[0][36] == 30 && b[0][36] == 20,
            ;
        } else if e == 1 {
            assert(a[1][36] == 28 && b[1][36] == 40);
            assert(a[1][36] * b[1][36] == 1120) by (nonlinear_arith)
                requires
                    a[1][36] == 28 && b[1][36] == 40,
            ;
        } else if e == 2 {
            assert(a[2][36] == 30 && b[2][36] == 56);
            assert(a[2][36] * b[2][36] == 1680) by (nonlinear_arith)
                requires
                    a[2][36] == 30 && b[2][36] == 56,
            ;
        } else {
            assert(a[3][36] == 30 && b[3][36] == 66);
            assert(a[3][36] * b[3][36] == 1980) by (nonlinear_arith)
                requires
                    a[3][36] == 30 && b[3][36] == 66,
            ;
        }
    } else if ver == 37 {
        assert(raw_data_modules(37) == 25568) by (nonlinear_arith);
        if e == 0 {
            assert(a[0][37] == 30 && b[0][37] == 21);
            assert(a[0][37] * b[0][37] == 630) by (nonlinear_arith)
                requires
                    a[0][37] == 30 && b[0][37] == 21,
            ;
        } else if e == 1 {
            assert(a[1][37] == 28 && b[1][37] == 43);
            assert(a[1][37] * b[1][37] == 1204) by (nonlinear_arith)
                requires
                    a[1][37] == 28 && b[1][37] == 43,
            ;
        } else if e == 2 {
            assert(a[2][37] == 30 && b[2][37] == 59);
            assert(a[2][37] * b[2][37] == 1770) by (nonlinear_arith)
                requires
                    a[2][37] == 30 && b[2][37] == 59,
            ;
        } else {
            assert(a[3][37] == 30 && b[3][37] == 70);
            assert(a[3][37] * b[3][37] == 2100) by (nonlinear_arith)
                requires
                    a[3][37] == 30 && b[3][37] == 70,
            ;
        }
    } else if ver == 38 {
        assert(raw_data_modules(38) == 26896) by (nonlinear_arith);
        if e == 0 {
            assert(a[0][38] == 30 && b[0][38] == 22);
            assert(a[0][38] * b[0][38] == 660) by (nonlinear_arith)
                requires
                    a[0][38] == 30 && b[0][38] == 22,
            ;
        } else if e == 1 {
            assert(a[1][38] == 28 && b[1][38] == 45);
            assert(a[1][38] * b[1][38] == 1260) by (nonlinear_arith)
                requires
                    a[1][38] == 28 && b[1][38] == 45,
            ;
        } else if e == 2 {
            assert(a[2][38] == 30 && b[2][38] == 62);
            assert(a[2][38] * b[2][38] == 1860) by (nonlinear_arith)
                requires
                    a[2][38] == 30 && b[2][38] == 62,
            ;
        } else {
            assert(a[3][38] == 30 && b[3][38] == 74);
            assert(a[3][38] * b[3][38] == 2220) by (nonlinear_arith)
                requires
                    a[3][38] == 30 && b[3][38] == 74,
            ;
        }
    } else if ver == 39 {
        assert(raw_data_modules(39) == 28256) by (nonlinear_arith);
        if e == 0 {
            assert(a[0][39] == 30 && b[0][39] == 24);
            assert(a[0][39] * b[0][39] == 720) by (nonlinear_arith)
                requires
                    a[0][39] == 30 && b[0][39] == 24,
            ;
        } else if e == 1 {
            assert(a[1][39] == 28 && b[1][39] == 47);
            assert(a[1][39] * b[1][39] == 1316) by (nonlinear_arith)
                requires
                    a[1][39] == 28 && b[1][39] == 47,
            ;
        } else if e == 2 {
            assert(a[2][39] == 30 && b[2][39] == 65);
            assert(a[2][39] * b[2][39] == 1950) by (nonlinear_arith)
                requires
                    a[2][39] == 30 && b[2][39] == 65,
            ;
        } else {
            assert(a[3][39] == 30 && b[3][39] == 77);
            assert(a[3][39] * b[3][39] == 2310) by (nonlinear_arith)
                requires
                    a[3][39] == 30 && b[3][39] == 77,
            ;
        }
    } else if ver == 40 {
        assert(raw_data_modules(40) == 29648) by (nonlinear_arith);
        if e == 0 {
            assert(a[0][40] == 30 && b[0][40] == 25);
            assert(a[0][40] * b[0][40] == 750) by (nonlinear_arith)
                requires
                    a[0][40] == 30 && b[0][40] == 25,
            ;
        } else if e == 1 {
            assert(a[1][40] == 28 && b[1][40] == 49);
            assert(a[1][40] * b[1][40] == 1372) by (nonlinear_arith)
                requires
                    a[1][40] == 28 && b[1][40] == 49,
            ;
        } else if e == 2 {
            assert(a[2][40] == 30 && b[2][40] == 68);
            assert(a[2][40] * b[2][40] == 2040) by (nonlinear_arith)
                requires
                    a[2][40] == 30 && b[2][40] == 68,
            ;
        } else {
            assert(a[3][40] == 30 && b[3][40] == 81);
            assert(a[3][40] * b[3][40] == 2430) by (nonlinear_arith)
                requires
                    a[3][40] == 30 && b[3][40] == 81,
            ;
        }
    }
}

fn ecc_index_exec(ecl: EccLevel) -> (r: usize)
    ensures
        r as int == ecc_index(ecl),
{
    match ecl {
        EccLevel::Low => 0,
        EccLevel::Medium => 1,
        EccLevel::Quartile => 2,
        EccLevel::High => 3,
    }
}

/// Number of data bits in a symbol of version `ver` once the function modules
/// are taken out, remainder bits included; between 208 and 29648.
pub fn get_num_raw_data_modules(ver: u8) -> (r: usize)
    requires
        1 <= ver <= 40,
    ensures
        r as int == raw_data_modules(ver as int),
        208 <= r <= 29648,
{
    let v = ver as usize;
    proof {
        lemma_capacity(v as int, 0);
        assert((16 * v + 128) * v + 64 <= 30784) by (nonlinear_arith)
            requires
                v <= 40,
        ;
    }
    let mut result: usize = (16 * v + 128) * v + 64;
    if v >= 2 {
        let numalign: usize = v / 7 + 2;
        proof {
            assert(0 <= (25 * numalign - 10) * numalign - 55 <= 1100) by (nonlinear_arith)
                requires
                    2 <= numalign <= 7,
            ;
        }
        result -= (25 * numalign - 10) * numalign - 55;
        if v >= 7 {
            result -= 36;
        }
    }
    result
}

/// The entry of `table` for level `ecl` and version `ver`.
pub fn table_get(table: &Vec<Vec<i8>>, ver: u8, ecl: EccLevel) -> (r: usize)
    requires
        table@.len() == 4,
        forall|e: int| 0 <= e < 4 ==> (#[trigger] table@[e])@.len() == 41,
        0 <= table@[ecc_index(ecl)]@[ver as int],
        ver <= 40,
    ensures
        r as int == table@[ecc_index(ecl)]@[ver as int],
{
    let e = ecc_index_exec(ecl);
    table[e][ver as usize] as usize
}

/// Number of 8-bit data codewords in a symbol of version `ver` at level `ecl`,
/// remainder bits left out.
pub fn get_num_data_codewords(ver: u8, ecl: EccLevel) -> (r: usize)
    requires
        1 <= ver <= 40,
    ensures
        r as int == data_codewords(ver as int, ecl),
        0 < r <= 3706,
{
    let ecc = ecc_codewords_table();
    let blocks = error_correction_blocks_table();
    let ghost e = ecc_index(ecl);
    proof {
        lemma_capacity(ver as int, e);
        assert(ecc@[e]@[ver as int] as int == ecc_codewords_rows()[e][ver as int]);
        assert(blocks@[e]@[ver as int] as int == error_correction_blocks_rows()[e][ver as int]);
    }
    let a = table_get(&ecc, ver, ecl);
    let b = table_get(&blocks, ver, ecl);
    proof {
        assert(a * b <= 30 * 81) by (nonlinear_arith)
            requires
                a <= 30,
                b <= 81,
        ;
    }
    get_num_raw_data_modules(ver) / 8 - a * b
}

} // verus!
