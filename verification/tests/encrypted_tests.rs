use fhe_life::board::Board;
use fhe_life::fhe::{decrypt_cell, encrypt_cell, gen_session, Cell, ClientKeyHandle};
use fhe_life::rule::plain_step;
use fhe_life::strategy::{is_alive, select_strategy, Strategy, StrategyKind};
use fhe_life::LifeError;
use tfhe::shortint::parameters::{
    CarryModulus, CiphertextModulus, ClassicPBSParameters, DecompositionBaseLog,
    DecompositionLevelCount, DynamicDistribution, EncryptionKeyChoice, GlweDimension,
    LweDimension, MaxNoiseLevel, MessageModulus, ModulusSwitchType, PolynomialSize, StandardDev,
};

/// A deliberately tiny, insecure parameter set for fast test runs: one-element
/// LWE keys over a 256-coefficient polynomial, with noise chosen for a
/// combined capacity of 64, so any split up to that capacity decodes exactly.
fn tiny_params(msg: u64, carry: u64) -> ClassicPBSParameters {
    ClassicPBSParameters {
        lwe_dimension: LweDimension(1),
        glwe_dimension: GlweDimension(1),
        polynomial_size: PolynomialSize(256),
        lwe_noise_distribution: DynamicDistribution::new_gaussian_from_std_dev(StandardDev(
            0.0000006197725091905067,
        )),
        glwe_noise_distribution: DynamicDistribution::new_gaussian_from_std_dev(StandardDev(
            0.0000000000000000002168404344971009,
        )),
        pbs_base_log: DecompositionBaseLog(22),
        pbs_level: DecompositionLevelCount(1),
        ks_level: DecompositionLevelCount(6),
        ks_base_log: DecompositionBaseLog(3),
        message_modulus: MessageModulus(msg),
        carry_modulus: CarryModulus(carry),
        max_noise_level: MaxNoiseLevel::new(5),
        log2_p_fail: -40.0,
        ciphertext_modulus: CiphertextModulus::new_native(),
        encryption_key_choice: EncryptionKeyChoice::Big,
        modulus_switch_noise_reduction_params: ModulusSwitchType::Standard,
    }
}

/// Message space 4, carry space 4: the integer-sum and bit-slice regimes.
fn small_params() -> ClassicPBSParameters {
    tiny_params(4, 4)
}

/// Message space 16, carry space 1: the two-table fused regime.
fn two_step_params() -> ClassicPBSParameters {
    tiny_params(16, 1)
}

/// Message space 32, carry space 1: the packed fused regime.
fn packed_params() -> ClassicPBSParameters {
    tiny_params(32, 1)
}

fn encrypt_grid(handle: &ClientKeyHandle, bits: &[u64]) -> Vec<Cell> {
    bits.iter().map(|&b| encrypt_cell(handle, b)).collect()
}

fn decrypt_board(handle: &ClientKeyHandle, board: &Board) -> Vec<u64> {
    let mut out = Vec::new();
    for i in 0..board.rows() {
        for j in 0..board.cols() {
            out.push(decrypt_cell(handle, board.cell(i, j)));
        }
    }
    out
}

fn glider() -> Vec<u64> {
    let mut g = vec![0u64; 6 * 6];
    for (i, j) in [(0, 0), (1, 1), (1, 2), (2, 0), (2, 1)] {
        g[i * 6 + j] = 1;
    }
    g
}

fn run_one_generation(params: ClassicPBSParameters, kind: StrategyKind, bits: &[u64], cols: usize) -> Vec<u64> {
    let (handle, ctx) = gen_session(params);
    let strat = match select_strategy(kind, ctx.message_modulus(), ctx.carry_modulus()) {
        Ok(s) => s,
        Err(e) => panic!("selection failed for {:?}: {:?}", kind, e),
    };
    let cells = encrypt_grid(&handle, bits);
    let mut board = match Board::new(cols, cells) {
        Ok(b) => b,
        Err(e) => panic!("board construction failed: {:?}", e),
    };
    board.update(&ctx, strat);
    decrypt_board(&handle, &board)
}

#[test]
fn encrypted_roundtrip() {
    let (handle, _ctx) = gen_session(small_params());
    assert!(handle.message_modulus() >= 2);
    for v in 0..2u64 {
        let c = encrypt_cell(&handle, v);
        assert_eq!(decrypt_cell(&handle, &c), v);
    }
}

#[test]
fn encrypted_rule_on_one_cell() {
    let (handle, ctx) = gen_session(small_params());
    let strat = select_strategy(
        StrategyKind::IntegerSum,
        ctx.message_modulus(),
        ctx.carry_modulus(),
    )
    .unwrap_or_else(|e| panic!("integer sum must fit a capacity of sixteen: {:?}", e));
    assert_eq!(strat, Strategy::IntegerSum);

    // A dead cell with exactly three live neighbors is born; with two it
    // stays dead.
    let cell = encrypt_cell(&handle, 0);
    let live = encrypt_cell(&handle, 1);
    let dead = encrypt_cell(&handle, 0);
    let born = is_alive(
        &ctx, strat, &cell, &live, &live, &live, &dead, &dead, &dead, &dead, &dead,
    );
    assert_eq!(decrypt_cell(&handle, &born), 1);
    let starved = is_alive(
        &ctx, strat, &cell, &live, &live, &dead, &dead, &dead, &dead, &dead, &dead,
    );
    assert_eq!(decrypt_cell(&handle, &starved), 0);
}

#[test]
fn cross_strategy_equivalence_on_glider() {
    let start = glider();
    let expected = plain_step(&start, 6, 6);

    let by_sum = run_one_generation(small_params(), StrategyKind::IntegerSum, &start, 6);
    let by_bits = run_one_generation(small_params(), StrategyKind::BitSlice, &start, 6);
    let by_two_step = run_one_generation(two_step_params(), StrategyKind::FusedLookup, &start, 6);
    let by_packed = run_one_generation(packed_params(), StrategyKind::FusedLookup, &start, 6);

    assert_eq!(by_sum, expected);
    assert_eq!(by_bits, expected);
    assert_eq!(by_two_step, expected);
    assert_eq!(by_packed, expected);
}

#[test]
fn known_six_by_six_generation_encrypted() {
    let next = run_one_generation(small_params(), StrategyKind::IntegerSum, &glider(), 6);
    let expected: Vec<u64> = vec![
        0, 1, 0, 0, 0, 0,
        0, 0, 1, 0, 0, 0,
        1, 1, 1, 0, 0, 0,
        0, 0, 0, 0, 0, 0,
        0, 0, 0, 0, 0, 0,
        0, 0, 0, 0, 0, 0,
    ];
    assert_eq!(next, expected);
}

#[test]
fn encrypted_block_is_still_life() {
    let mut g = vec![0u64; 4 * 4];
    for (i, j) in [(1, 1), (1, 2), (2, 1), (2, 2)] {
        g[i * 4 + j] = 1;
    }
    let next = run_one_generation(small_params(), StrategyKind::BitSlice, &g, 4);
    assert_eq!(next, g);
}

#[test]
fn encrypted_extinction_is_stable() {
    let g = vec![0u64; 3 * 3];
    let next = run_one_generation(small_params(), StrategyKind::IntegerSum, &g, 3);
    assert!(next.iter().all(|&v| v == 0));
}

#[test]
fn run_matches_iterated_plain_steps() {
    let start = glider();
    let after_one = plain_step(&start, 6, 6);
    let after_two = plain_step(&after_one, 6, 6);

    let (handle, ctx) = gen_session(small_params());
    let strat = select_strategy(
        StrategyKind::IntegerSum,
        ctx.message_modulus(),
        ctx.carry_modulus(),
    )
    .unwrap_or_else(|e| panic!("selection failed: {:?}", e));
    let cells = encrypt_grid(&handle, &start);
    let mut board = match Board::new(6, cells) {
        Ok(b) => b,
        Err(e) => panic!("board construction failed: {:?}", e),
    };
    board.run(&ctx, strat, 2);
    assert_eq!(decrypt_board(&handle, &board), after_two);
}

#[test]
fn uneven_rows_are_a_dimension_mismatch() {
    let (handle, _ctx) = gen_session(small_params());
    let cells = encrypt_grid(&handle, &[1, 0, 1, 0, 1]);
    match Board::new(3, cells) {
        Err(e) => assert_eq!(e, LifeError::DimensionMismatch),
        Ok(_) => panic!("five cells do not fill rows of three"),
    }
}

#[test]
fn selection_rejects_before_ciphertext_work() {
    // The session advertises capacity 16 as message 4, carry 4: ample, but
    // not an enumerated fused layout, so fused selection must fail without
    // touching any ciphertext.
    let (_handle, ctx) = gen_session(small_params());
    assert_eq!(
        select_strategy(
            StrategyKind::FusedLookup,
            ctx.message_modulus(),
            ctx.carry_modulus()
        ),
        Err(LifeError::UnsupportedParameterRegime)
    );
}
