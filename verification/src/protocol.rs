//! The MAX7219 chain wire format, as mathematical sequences.
//!
//! A bus transaction addressed to a chain of `devices` modules is always
//! `devices * 2` bytes long: byte `2k` is the register for module `k`'s slot,
//! byte `2k + 1` the data byte.  The spec functions here give the exact bytes
//! of every transaction the driver emits, and `sent_prefix` describes a bus
//! log after an aborted multi-transaction sequence.

use vstd::arithmetic::div_mod::lemma_fundamental_div_mod_converse;
use vstd::prelude::*;

use crate::mapping::uniform_fb;

verus! {

/// Register selecting BCD decode mode (the driver always writes "no decode").
pub const DECODE_MODE_REG: u8 = 0x09;

/// Register holding the display intensity.
pub const INTENSITY_REG: u8 = 0x0A;

/// Register holding the scan limit (how many digit rows are driven).
pub const SCAN_LIMIT_REG: u8 = 0x0B;

/// Register switching a module on or off.
pub const POWER_REG: u8 = 0x0C;

/// Register switching test mode (all pixels lit) on or off.
pub const DISPLAY_TEST_REG: u8 = 0x0F;

/// A transaction carrying `(register, data)` for module `addr` and the
/// no-op pair `(0, 0)` for every other slot in the chain.
pub open spec fn single_transaction(devices: int, addr: int, register: u8, data: u8) -> Seq<u8> {
    Seq::new((devices * 2) as nat, |i: int|
        if i == addr * 2 {
            register
        } else if i == addr * 2 + 1 {
            data
        } else {
            0u8
        })
}

/// The flush transaction for one digit row: register `digit + 1` at every
/// even offset, and module `k`'s framebuffer byte for that row at offset
/// `2k + 1`.
pub open spec fn row_transaction(fb: Seq<Seq<u8>>, devices: int, digit: int) -> Seq<u8> {
    Seq::new((devices * 2) as nat, |i: int|
        if i % 2 == 0 {
            (digit + 1) as u8
        } else {
            fb[i / 2][digit]
        })
}

/// The eight transactions of a full flush, one per digit row.
pub open spec fn flush_transactions(fb: Seq<Seq<u8>>, devices: int) -> Seq<Seq<u8>> {
    Seq::new(8, |digit: int| row_transaction(fb, devices, digit))
}

/// The eight transactions that clear module `addr`'s digit registers.
pub open spec fn clear_transactions(devices: int, addr: int) -> Seq<Seq<u8>> {
    Seq::new(8, |d: int| single_transaction(devices, addr, (d + 1) as u8, 0x00))
}

/// One power transaction per module, in chain order.
pub open spec fn power_transactions(devices: int, data: u8) -> Seq<Seq<u8>> {
    Seq::new(devices as nat, |i: int| single_transaction(devices, i, POWER_REG, data))
}

/// The configuration sequence for one module during `init`: test mode off,
/// scan limit 7, intensity 1, no BCD decode, then its eight clear writes.
pub open spec fn module_config_transactions(devices: int, addr: int) -> Seq<Seq<u8>> {
    seq![
        single_transaction(devices, addr, DISPLAY_TEST_REG, 0x00),
        single_transaction(devices, addr, SCAN_LIMIT_REG, 0x07),
        single_transaction(devices, addr, INTENSITY_REG, 0x01),
        single_transaction(devices, addr, DECODE_MODE_REG, 0x00),
    ] + clear_transactions(devices, addr)
}

/// The configuration transactions of modules `0 .. n`, in module order.
pub open spec fn config_transactions_upto(devices: int, n: int) -> Seq<Seq<u8>>
    decreases n,
{
    if n <= 0 {
        Seq::empty()
    } else {
        config_transactions_upto(devices, n - 1) + module_config_transactions(devices, n - 1)
    }
}

/// Everything `init` sends: each module's configuration, then one chain-wide
/// power-off.
pub open spec fn init_transactions(devices: int) -> Seq<Seq<u8>> {
    config_transactions_upto(devices, devices) + power_transactions(devices, 0x00)
}

/// Everything `write_display` sends: a decode-mode write, then module
/// `addr`'s eight digit rows taken from `raw`.
pub open spec fn write_display_transactions(devices: int, addr: int, raw: Seq<u8>) -> Seq<Seq<u8>> {
    seq![single_transaction(devices, 0, DECODE_MODE_REG, 0x00)]
        + Seq::new(8, |d: int| single_transaction(devices, addr, (d + 1) as u8, raw[d]))
}

/// Holds when `after` extends `before` by the first `k` elements of `txs`,
/// for some `k`: the shape of a bus log after a transaction sequence that ran
/// to completion or was cut short by the first bus error.
pub open spec fn sent_prefix(before: Seq<Seq<u8>>, after: Seq<Seq<u8>>, txs: Seq<Seq<u8>>) -> bool {
    exists|k: int| 0 <= k <= txs.len() && after == before + #[trigger] txs.take(k)
}

/// A flush is always exactly eight transactions of `devices * 2` bytes,
/// with digit register `d + 1` at every even offset of transaction `d` —
/// whatever the framebuffer holds.
pub proof fn lemma_flush_frame_shape(fb: Seq<Seq<u8>>, devices: int)
    requires
        devices >= 0,
    ensures
        flush_transactions(fb, devices).len() == 8,
        forall|d: int|
            0 <= d < 8 ==> (#[trigger] flush_transactions(fb, devices)[d]).len() == devices * 2,
        forall|d: int, k: int|
            0 <= d < 8 && 0 <= k < devices ==> #[trigger] flush_transactions(fb, devices)[d][2 * k]
                == (d + 1) as u8,
{
    assert forall|d: int, k: int|
        0 <= d < 8 && 0 <= k < devices implies #[trigger] flush_transactions(
        fb,
        devices,
    )[d][2 * k] == (d + 1) as u8 by {
        lemma_fundamental_div_mod_converse(2 * k, 2, k, 0);
    }
}

/// Flushing an all-off framebuffer sends data byte `0x00` for every module
/// in every digit row.
pub proof fn lemma_flush_blank(devices: int)
    requires
        devices >= 0,
    ensures
        forall|d: int, k: int|
            0 <= d < 8 && 0 <= k < devices ==> #[trigger] flush_transactions(
                uniform_fb(devices, 0x00u8),
                devices,
            )[d][2 * k + 1] == 0x00u8,
{
    assert forall|d: int, k: int|
        0 <= d < 8 && 0 <= k < devices implies #[trigger] flush_transactions(
        uniform_fb(devices, 0x00u8),
        devices,
    )[d][2 * k + 1] == 0x00u8 by {
        lemma_fundamental_div_mod_converse(2 * k + 1, 2, k, 1);
    }
}

/// Taking one more element appends exactly that element.
pub proof fn lemma_take_step(txs: Seq<Seq<u8>>, k: int)
    requires
        0 <= k < txs.len(),
    ensures
        txs.take(k + 1) == txs.take(k).push(txs[k]),
{
    assert(txs.take(k + 1) =~= txs.take(k).push(txs[k]));
}

/// Taking the whole sequence changes nothing.
pub proof fn lemma_take_all(txs: Seq<Seq<u8>>)
    ensures
        txs.take(txs.len() as int) == txs,
{
    assert(txs.take(txs.len() as int) =~= txs);
}

/// A witness `k` establishes `sent_prefix` directly.
pub proof fn lemma_sent_prefix_intro(
    before: Seq<Seq<u8>>,
    after: Seq<Seq<u8>>,
    txs: Seq<Seq<u8>>,
    k: int,
)
    requires
        0 <= k <= txs.len(),
        after == before + txs.take(k),
    ensures
        sent_prefix(before, after, txs),
{
}

/// An unchanged log is the empty prefix of any sequence.
pub proof fn lemma_sent_prefix_refl(before: Seq<Seq<u8>>, txs: Seq<Seq<u8>>)
    ensures
        sent_prefix(before, before, txs),
{
    assert(before + txs.take(0) =~= before);
    lemma_sent_prefix_intro(before, before, txs, 0);
}

/// A fully sent sequence is a prefix of itself.
pub proof fn lemma_sent_prefix_full(before: Seq<Seq<u8>>, after: Seq<Seq<u8>>, txs: Seq<Seq<u8>>)
    requires
        after == before + txs,
    ensures
        sent_prefix(before, after, txs),
{
    lemma_take_all(txs);
    lemma_sent_prefix_intro(before, after, txs, txs.len() as int);
}

/// A prefix of `txs1` is a prefix of `txs1 + txs2`.
pub proof fn lemma_sent_prefix_weaken(
    before: Seq<Seq<u8>>,
    after: Seq<Seq<u8>>,
    txs1: Seq<Seq<u8>>,
    txs2: Seq<Seq<u8>>,
)
    requires
        sent_prefix(before, after, txs1),
    ensures
        sent_prefix(before, after, txs1 + txs2),
{
    let k = choose|k: int| 0 <= k <= txs1.len() && after == before + #[trigger] txs1.take(k);
    assert((txs1 + txs2).take(k) =~= txs1.take(k));
    lemma_sent_prefix_intro(before, after, txs1 + txs2, k);
}

/// After sending all of `txs1`, a prefix of `txs2` extends to a prefix of
/// `txs1 + txs2`.
pub proof fn lemma_sent_prefix_shift(
    base: Seq<Seq<u8>>,
    mid: Seq<Seq<u8>>,
    after: Seq<Seq<u8>>,
    txs1: Seq<Seq<u8>>,
    txs2: Seq<Seq<u8>>,
)
    requires
        mid == base + txs1,
        sent_prefix(mid, after, txs2),
    ensures
        sent_prefix(base, after, txs1 + txs2),
{
    let k = choose|k: int| 0 <= k <= txs2.len() && after == mid + #[trigger] txs2.take(k);
    assert((txs1 + txs2).take(txs1.len() + k) =~= txs1 + txs2.take(k));
    assert(after =~= base + (txs1 + txs2).take(txs1.len() + k));
    lemma_sent_prefix_intro(base, after, txs1 + txs2, txs1.len() + k);
}

/// A prefix of the first `m` modules' configuration traffic is a prefix of
/// the first `n` modules' traffic, for `m <= n`.
pub proof fn lemma_sent_prefix_config_mono(
    before: Seq<Seq<u8>>,
    after: Seq<Seq<u8>>,
    devices: int,
    m: int,
    n: int,
)
    requires
        0 <= m <= n,
        sent_prefix(before, after, config_transactions_upto(devices, m)),
    ensures
        sent_prefix(before, after, config_transactions_upto(devices, n)),
    decreases n - m,
{
    if m < n {
        lemma_sent_prefix_config_mono(before, after, devices, m, n - 1);
        lemma_sent_prefix_weaken(
            before,
            after,
            config_transactions_upto(devices, n - 1),
            module_config_transactions(devices, n - 1),
        );
    }
}

} // verus!
