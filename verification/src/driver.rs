//! The chain driver: an in-memory framebuffer over a grid of MAX7219
//! modules, per-module command primitives, and the chain-wide flush.
//!
//! Drawing operations mutate only the framebuffer; `flush` serializes it to
//! the bus, one transaction per digit row.  Every contract states the exact
//! bytes appended to the bus log, and — for multi-transaction sequences —
//! that a bus failure leaves the log extended by a prefix of the intended
//! traffic and nothing else.

use vstd::arithmetic::div_mod::lemma_fundamental_div_mod_converse;
use vstd::pervasive::VecAdditionalExecFns;
use vstd::prelude::*;

use crate::bus::Bus;
use crate::mapping::{
    chain_index, fb_wf, in_bounds, lemma_chain_index_bounds, lemma_set_pixel_pointwise,
    pixel_at, set_pixel_spec, uniform_fb,
};
use crate::protocol::{
    clear_transactions, config_transactions_upto, flush_transactions, init_transactions,
    lemma_sent_prefix_config_mono, lemma_sent_prefix_intro, lemma_sent_prefix_shift,
    lemma_sent_prefix_weaken, lemma_take_all, lemma_take_step, module_config_transactions,
    power_transactions, row_transaction, sent_prefix, single_transaction,
    write_display_transactions, DECODE_MODE_REG, DISPLAY_TEST_REG, INTENSITY_REG, POWER_REG,
    SCAN_LIMIT_REG,
};

verus! {

/// The MAX7219 command registers the driver writes.
#[derive(Clone, Copy)]
pub enum Command {
    DecodeMode,
    Intensity,
    ScanLimit,
    Power,
    DisplayTest,
}

impl Command {
    /// The register address of this command.
    pub open spec fn register_spec(self) -> u8 {
        match self {
            Command::DecodeMode => DECODE_MODE_REG,
            Command::Intensity => INTENSITY_REG,
            Command::ScanLimit => SCAN_LIMIT_REG,
            Command::Power => POWER_REG,
            Command::DisplayTest => DISPLAY_TEST_REG,
        }
    }

    /// The register address of this command.
    pub fn register(self) -> (r: u8)
        ensures
            r == self.register_spec(),
    {
        match self {
            Command::DecodeMode => DECODE_MODE_REG,
            Command::Intensity => INTENSITY_REG,
            Command::ScanLimit => SCAN_LIMIT_REG,
            Command::Power => POWER_REG,
            Command::DisplayTest => DISPLAY_TEST_REG,
        }
    }
}

/// Decode modes for BCD encoded input; the driver only ever uses raw
/// bitmap mode.
#[derive(Clone, Copy)]
pub enum DecodeMode {
    NoDecode,
}

impl DecodeMode {
    /// The data byte that selects this decode mode.
    pub open spec fn value_spec(self) -> u8 {
        match self {
            DecodeMode::NoDecode => 0x00,
        }
    }

    /// The data byte that selects this decode mode.
    pub fn value(self) -> (r: u8)
        ensures
            r == self.value_spec(),
    {
        match self {
            DecodeMode::NoDecode => 0x00,
        }
    }
}

/// A chain of `rows * columns` MAX7219 modules behind one bus, with the
/// in-memory framebuffer that mirrors their digit registers.
pub struct Max7219<B: Bus> {
    /// Module grid rows.
    pub rows: usize,
    /// Module grid columns.
    pub columns: usize,
    /// Chain length; always `rows * columns`.
    pub devices: usize,
    /// The bus the chain hangs on, owned exclusively by the driver.
    pub bus: B,
    /// One eight-byte row list per module, in chain order.
    pub buffer: Vec<Vec<u8>>,
}

impl<B: Bus> Max7219<B> {
    /// The framebuffer as a sequence of per-module digit-row sequences.
    pub open spec fn fb(&self) -> Seq<Seq<u8>> {
        self.buffer@.map_values(|row: Vec<u8>| row@)
    }

    /// Construction-time shape invariants: the device count matches the
    /// grid, the framebuffer matches the device count, and the dimensions
    /// stay within machine limits.
    pub open spec fn wf(&self) -> bool {
        &&& self.devices == self.rows * self.columns
        &&& self.devices * 2 <= usize::MAX
        &&& self.rows * 8 <= usize::MAX
        &&& self.columns * 8 <= usize::MAX
        &&& fb_wf(self.fb(), self.devices as int)
    }

    /// The grid shape never changes after construction.
    pub open spec fn same_shape(self, other: Self) -> bool {
        &&& self.rows == other.rows
        &&& self.columns == other.columns
        &&& self.devices == other.devices
    }

    /// A driver for a `rows x columns` grid on `bus`, with every pixel
    /// off.  No bus traffic occurs here.
    pub fn new(bus: B, rows: usize, columns: usize) -> (r: Max7219<B>)
        requires
            rows * columns * 2 <= usize::MAX,
            rows * 8 <= usize::MAX,
            columns * 8 <= usize::MAX,
        ensures
            r.wf(),
            r.rows == rows,
            r.columns == columns,
            r.devices == rows * columns,
            r.bus == bus,
            r.fb() == uniform_fb((rows * columns) as int, 0x00u8),
    {
        let devices = rows * columns;
        let mut buffer: Vec<Vec<u8>> = Vec::new();
        let mut m: usize = 0;
        while m < devices
            invariant
                m <= devices,
                buffer@.len() == m,
                forall|i: int|
                    0 <= i < m ==> (#[trigger] buffer@[i])@ == Seq::new(8, |d: int| 0x00u8),
            decreases devices - m,
        {
            let mut row: Vec<u8> = Vec::new();
            let mut d: usize = 0;
            while d < 8
                invariant
                    d <= 8,
                    row@.len() == d,
                    forall|j: int| 0 <= j < d ==> row@[j] == 0x00u8,
                decreases 8 - d,
            {
                row.push(0x00u8);
                d += 1;
            }
            proof {
                assert(row@ =~= Seq::new(8, |j: int| 0x00u8));
            }
            buffer.push(row);
            m += 1;
        }
        let r = Max7219 { rows, columns, devices, bus, buffer };
        proof {
            assert(r.fb() =~= uniform_fb(devices as int, 0x00u8));
        }
        r
    }

    /// The logical canvas size in pixels: `(columns * 8, rows * 8)`, with
    /// origin `(0, 0)`.
    pub fn size(&self) -> (r: (usize, usize))
        requires
            self.wf(),
        ensures
            r.0 == self.columns * 8,
            r.1 == self.rows * 8,
    {
        (self.columns * 8, self.rows * 8)
    }

    /// Send one `(register, data)` pair to module `addr`.  The transaction
    /// still clocks every module: all other slots carry the no-op `(0, 0)`.
    pub fn write_raw(&mut self, addr: usize, register: u8, data: u8) -> (r: Result<
        (),
        B::BusError,
    >)
        requires
            old(self).wf(),
            addr < old(self).devices,
        ensures
            final(self).wf(),
            final(self).same_shape(*old(self)),
            final(self).fb() == old(self).fb(),
            r is Ok ==> final(self).bus.log() == old(self).bus.log().push(
                single_transaction(old(self).devices as int, addr as int, register, data),
            ),
            r is Err ==> final(self).bus.log() == old(self).bus.log(),
    {
        let max_bytes = self.devices * 2;
        let offset = addr * 2;
        let mut buf: Vec<u8> = Vec::new();
        let mut i: usize = 0;
        while i < max_bytes
            invariant
                i <= max_bytes,
                buf@.len() == i,
                forall|j: int| 0 <= j < i ==> buf@[j] == 0x00u8,
            decreases max_bytes - i,
        {
            buf.push(0x00u8);
            i += 1;
        }
        buf.set(offset, register);
        buf.set(offset + 1, data);
        proof {
            assert(buf@ =~= single_transaction(self.devices as int, addr as int, register, data));
        }
        match self.bus.write(buf.as_slice()) {
            Ok(()) => Ok(()),
            Err(e) => Err(e),
        }
    }

    /// Send `command`'s register with `data` to module `addr`.
    fn write_data(&mut self, addr: usize, command: Command, data: u8) -> (r: Result<
        (),
        B::BusError,
    >)
        requires
            old(self).wf(),
            addr < old(self).devices,
        ensures
            final(self).wf(),
            final(self).same_shape(*old(self)),
            final(self).fb() == old(self).fb(),
            r is Ok ==> final(self).bus.log() == old(self).bus.log().push(
                single_transaction(
                    old(self).devices as int,
                    addr as int,
                    command.register_spec(),
                    data,
                ),
            ),
            r is Err ==> final(self).bus.log() == old(self).bus.log(),
    {
        let register = command.register();
        self.write_raw(addr, register, data)
    }

    /// Switch module `addr`'s test mode (all pixels lit) on or off.
    pub fn test(&mut self, addr: usize, is_on: bool) -> (r: Result<(), B::BusError>)
        requires
            old(self).wf(),
            addr < old(self).devices,
        ensures
            final(self).wf(),
            final(self).same_shape(*old(self)),
            final(self).fb() == old(self).fb(),
            r is Ok ==> final(self).bus.log() == old(self).bus.log().push(
                single_transaction(
                    old(self).devices as int,
                    addr as int,
                    DISPLAY_TEST_REG,
                    if is_on {
                        0x01u8
                    } else {
                        0x00u8
                    },
                ),
            ),
            r is Err ==> final(self).bus.log() == old(self).bus.log(),
    {
        if is_on {
            self.write_data(addr, Command::DisplayTest, 0x01)
        } else {
            self.write_data(addr, Command::DisplayTest, 0x00)
        }
    }

    /// Select module `addr`'s decode mode.
    pub fn set_decode_mode(&mut self, addr: usize, mode: DecodeMode) -> (r: Result<
        (),
        B::BusError,
    >)
        requires
            old(self).wf(),
            addr < old(self).devices,
        ensures
            final(self).wf(),
            final(self).same_shape(*old(self)),
            final(self).fb() == old(self).fb(),
            r is Ok ==> final(self).bus.log() == old(self).bus.log().push(
                single_transaction(
                    old(self).devices as int,
                    addr as int,
                    DECODE_MODE_REG,
                    mode.value_spec(),
                ),
            ),
            r is Err ==> final(self).bus.log() == old(self).bus.log(),
    {
        let data = mode.value();
        self.write_data(addr, Command::DecodeMode, data)
    }

    /// Set module `addr`'s intensity.
    pub fn set_intensity(&mut self, addr: usize, intensity: u8) -> (r: Result<(), B::BusError>)
        requires
            old(self).wf(),
            addr < old(self).devices,
        ensures
            final(self).wf(),
            final(self).same_shape(*old(self)),
            final(self).fb() == old(self).fb(),
            r is Ok ==> final(self).bus.log() == old(self).bus.log().push(
                single_transaction(old(self).devices as int, addr as int, INTENSITY_REG, intensity),
            ),
            r is Err ==> final(self).bus.log() == old(self).bus.log(),
    {
        self.write_data(addr, Command::Intensity, intensity)
    }

    /// Write the power register of every module in chain order.  A bus
    /// failure aborts the remaining modules.
    #[verifier::loop_isolation(false)]
    fn power_all(&mut self, data: u8) -> (r: Result<(), B::BusError>)
        requires
            old(self).wf(),
        ensures
            final(self).wf(),
            final(self).same_shape(*old(self)),
            final(self).fb() == old(self).fb(),
            r is Ok ==> final(self).bus.log() == old(self).bus.log() + power_transactions(
                old(self).devices as int,
                data,
            ),
            r is Err ==> sent_prefix(
                old(self).bus.log(),
                final(self).bus.log(),
                power_transactions(old(self).devices as int, data),
            ),
    {
        let ghost txs = power_transactions(old(self).devices as int, data);
        proof {
            assert(old(self).bus.log() + txs.take(0) =~= old(self).bus.log());
        }
        let mut i: usize = 0;
        while i < self.devices
            invariant
                i <= self.devices,
                self.wf(),
                self.same_shape(*old(self)),
                self.fb() == old(self).fb(),
                self.bus.log() == old(self).bus.log() + txs.take(i as int),
            decreases self.devices - i,
        {
            match self.write_data(i, Command::Power, data) {
                Ok(()) => {},
                Err(e) => {
                    proof {
                        lemma_sent_prefix_intro(old(self).bus.log(), self.bus.log(), txs, i as int);
                    }
                    return Err(e);
                },
            }
            proof {
                lemma_take_step(txs, i as int);
                assert(self.bus.log() =~= old(self).bus.log() + txs.take(i as int + 1));
            }
            i += 1;
        }
        proof {
            lemma_take_all(txs);
        }
        Ok(())
    }

    /// Power every module on, in chain order.
    pub fn power_on(&mut self) -> (r: Result<(), B::BusError>)
        requires
            old(self).wf(),
        ensures
            final(self).wf(),
            final(self).same_shape(*old(self)),
            final(self).fb() == old(self).fb(),
            r is Ok ==> final(self).bus.log() == old(self).bus.log() + power_transactions(
                old(self).devices as int,
                0x01,
            ),
            r is Err ==> sent_prefix(
                old(self).bus.log(),
                final(self).bus.log(),
                power_transactions(old(self).devices as int, 0x01),
            ),
    {
        self.power_all(0x01)
    }

    /// Power every module off, in chain order.
    pub fn power_off(&mut self) -> (r: Result<(), B::BusError>)
        requires
            old(self).wf(),
        ensures
            final(self).wf(),
            final(self).same_shape(*old(self)),
            final(self).fb() == old(self).fb(),
            r is Ok ==> final(self).bus.log() == old(self).bus.log() + power_transactions(
                old(self).devices as int,
                0x00,
            ),
            r is Err ==> sent_prefix(
                old(self).bus.log(),
                final(self).bus.log(),
                power_transactions(old(self).devices as int, 0x00),
            ),
    {
        self.power_all(0x00)
    }

    /// Zero module `addr`'s eight hardware digit registers.  Touches only
    /// the hardware, never the framebuffer.
    #[verifier::loop_isolation(false)]
    pub fn clear_display(&mut self, addr: usize) -> (r: Result<(), B::BusError>)
        requires
            old(self).wf(),
            addr < old(self).devices,
        ensures
            final(self).wf(),
            final(self).same_shape(*old(self)),
            final(self).fb() == old(self).fb(),
            r is Ok ==> final(self).bus.log() == old(self).bus.log() + clear_transactions(
                old(self).devices as int,
                addr as int,
            ),
            r is Err ==> sent_prefix(
                old(self).bus.log(),
                final(self).bus.log(),
                clear_transactions(old(self).devices as int, addr as int),
            ),
    {
        let ghost txs = clear_transactions(old(self).devices as int, addr as int);
        proof {
            assert(old(self).bus.log() + txs.take(0) =~= old(self).bus.log());
        }
        let mut i: usize = 1;
        while i < 9
            invariant
                1 <= i <= 9,
                self.wf(),
                self.same_shape(*old(self)),
                self.fb() == old(self).fb(),
                self.bus.log() == old(self).bus.log() + txs.take(i as int - 1),
            decreases 9 - i,
        {
            match self.write_raw(addr, i as u8, 0x00) {
                Ok(()) => {},
                Err(e) => {
                    proof {
                        lemma_sent_prefix_intro(
                            old(self).bus.log(),
                            self.bus.log(),
                            txs,
                            i as int - 1,
                        );
                    }
                    return Err(e);
                },
            }
            proof {
                lemma_take_step(txs, i as int - 1);
                assert(self.bus.log() =~= old(self).bus.log() + txs.take(i as int));
            }
            i += 1;
        }
        proof {
            lemma_take_all(txs);
        }
        Ok(())
    }

    /// Configure every module for raw bitmap use — test mode off, scan
    /// limit 7, intensity 1, no BCD decode, digit registers cleared — then
    /// power the whole chain off.  A bus failure aborts the rest of the
    /// sequence.
    #[verifier::loop_isolation(false)]
    pub fn init(&mut self) -> (r: Result<(), B::BusError>)
        requires
            old(self).wf(),
        ensures
            final(self).wf(),
            final(self).same_shape(*old(self)),
            final(self).fb() == old(self).fb(),
            r is Ok ==> final(self).bus.log() == old(self).bus.log() + init_transactions(
                old(self).devices as int,
            ),
            r is Err ==> sent_prefix(
                old(self).bus.log(),
                final(self).bus.log(),
                init_transactions(old(self).devices as int),
            ),
    {
        let ghost d = old(self).devices as int;
        proof {
            assert(old(self).bus.log() + config_transactions_upto(d, 0) =~= old(self).bus.log());
        }
        let mut i: usize = 0;
        while i < self.devices
            invariant
                i <= self.devices,
                self.wf(),
                self.same_shape(*old(self)),
                self.fb() == old(self).fb(),
                self.bus.log() == old(self).bus.log() + config_transactions_upto(d, i as int),
            decreases self.devices - i,
        {
            let ghost base = self.bus.log();
            let ghost mm = module_config_transactions(d, i as int);
            match self.test(i, false) {
                Ok(()) => {},
                Err(e) => {
                    proof {
                        assert(self.bus.log() =~= base + mm.take(0));
                        lemma_sent_prefix_intro(base, self.bus.log(), mm, 0);
                        lemma_init_abort(old(self).bus.log(), self.bus.log(), d, i as int);
                    }
                    return Err(e);
                },
            }
            proof {
                assert(self.bus.log() =~= base + mm.take(1));
            }
            match self.write_data(i, Command::ScanLimit, 0x07) {
                Ok(()) => {},
                Err(e) => {
                    proof {
                        lemma_sent_prefix_intro(base, self.bus.log(), mm, 1);
                        lemma_init_abort(old(self).bus.log(), self.bus.log(), d, i as int);
                    }
                    return Err(e);
                },
            }
            proof {
                assert(self.bus.log() =~= base + mm.take(2));
            }
            match self.set_intensity(i, 1) {
                Ok(()) => {},
                Err(e) => {
                    proof {
                        lemma_sent_prefix_intro(base, self.bus.log(), mm, 2);
                        lemma_init_abort(old(self).bus.log(), self.bus.log(), d, i as int);
                    }
                    return Err(e);
                },
            }
            proof {
                assert(self.bus.log() =~= base + mm.take(3));
            }
            match self.set_decode_mode(i, DecodeMode::NoDecode) {
                Ok(()) => {},
                Err(e) => {
                    proof {
                        lemma_sent_prefix_intro(base, self.bus.log(), mm, 3);
                        lemma_init_abort(old(self).bus.log(), self.bus.log(), d, i as int);
                    }
                    return Err(e);
                },
            }
            proof {
                assert(self.bus.log() =~= base + mm.take(4));
            }
            let ghost mid = self.bus.log();
            match self.clear_display(i) {
                Ok(()) => {},
                Err(e) => {
                    proof {
                        assert(mm.take(4) + clear_transactions(d, i as int) =~= mm);
                        lemma_sent_prefix_shift(
                            base,
                            mid,
                            self.bus.log(),
                            mm.take(4),
                            clear_transactions(d, i as int),
                        );
                        lemma_init_abort(old(self).bus.log(), self.bus.log(), d, i as int);
                    }
                    return Err(e);
                },
            }
            proof {
                assert(self.bus.log() =~= base + mm);
                assert(self.bus.log() =~= old(self).bus.log() + config_transactions_upto(
                    d,
                    i as int + 1,
                ));
            }
            i += 1;
        }
        let ghost mid = self.bus.log();
        match self.power_off() {
            Ok(()) => {
                proof {
                    assert(self.bus.log() =~= old(self).bus.log() + init_transactions(d));
                }
                Ok(())
            },
            Err(e) => {
                proof {
                    lemma_sent_prefix_shift(
                        old(self).bus.log(),
                        mid,
                        self.bus.log(),
                        config_transactions_upto(d, d),
                        power_transactions(d, 0x00),
                    );
                }
                Err(e)
            },
        }
    }

    /// Select raw decode mode, then write `raw`'s eight bytes into module
    /// `addr`'s digit registers, bypassing the framebuffer.
    #[verifier::loop_isolation(false)]
    pub fn write_display(&mut self, addr: usize, raw: &[u8; 8]) -> (r: Result<(), B::BusError>)
        requires
            old(self).wf(),
            addr < old(self).devices,
        ensures
            final(self).wf(),
            final(self).same_shape(*old(self)),
            final(self).fb() == old(self).fb(),
            r is Ok ==> final(self).bus.log() == old(self).bus.log() + write_display_transactions(
                old(self).devices as int,
                addr as int,
                raw@,
            ),
            r is Err ==> sent_prefix(
                old(self).bus.log(),
                final(self).bus.log(),
                write_display_transactions(old(self).devices as int, addr as int, raw@),
            ),
    {
        let ghost txs = write_display_transactions(old(self).devices as int, addr as int, raw@);
        match self.set_decode_mode(0, DecodeMode::NoDecode) {
            Ok(()) => {},
            Err(e) => {
                proof {
                    assert(old(self).bus.log() + txs.take(0) =~= old(self).bus.log());
                    lemma_sent_prefix_intro(old(self).bus.log(), self.bus.log(), txs, 0);
                }
                return Err(e);
            },
        }
        proof {
            assert(self.bus.log() =~= old(self).bus.log() + txs.take(1));
        }
        let mut i: usize = 0;
        while i < 8
            invariant
                i <= 8,
                self.wf(),
                self.same_shape(*old(self)),
                self.fb() == old(self).fb(),
                self.bus.log() == old(self).bus.log() + txs.take(i as int + 1),
            decreases 8 - i,
        {
            let b = raw[i];
            match self.write_raw(addr, (i as u8) + 1, b) {
                Ok(()) => {},
                Err(e) => {
                    proof {
                        lemma_sent_prefix_intro(
                            old(self).bus.log(),
                            self.bus.log(),
                            txs,
                            i as int + 1,
                        );
                    }
                    return Err(e);
                },
            }
            proof {
                lemma_take_step(txs, i as int + 1);
                assert(self.bus.log() =~= old(self).bus.log() + txs.take(i as int + 2));
            }
            i += 1;
        }
        proof {
            lemma_take_all(txs);
        }
        Ok(())
    }

    /// Serialize the whole framebuffer to the chain: for each digit row,
    /// one transaction carrying `[row register, framebuffer byte]` for
    /// every module.  On success the hardware mirrors the framebuffer; a
    /// bus failure aborts the remaining rows and the framebuffer is
    /// untouched either way.
    #[verifier::loop_isolation(false)]
    pub fn flush(&mut self) -> (r: Result<(), B::BusError>)
        requires
            old(self).wf(),
        ensures
            final(self).wf(),
            final(self).same_shape(*old(self)),
            final(self).fb() == old(self).fb(),
            r is Ok ==> final(self).bus.log() == old(self).bus.log() + flush_transactions(
                old(self).fb(),
                old(self).devices as int,
            ),
            r is Err ==> sent_prefix(
                old(self).bus.log(),
                final(self).bus.log(),
                flush_transactions(old(self).fb(), old(self).devices as int),
            ),
    {
        let ghost txs = flush_transactions(old(self).fb(), old(self).devices as int);
        proof {
            assert(old(self).bus.log() + txs.take(0) =~= old(self).bus.log());
        }
        let mut digit: usize = 0;
        while digit < 8
            invariant
                digit <= 8,
                self.wf(),
                self.same_shape(*old(self)),
                self.fb() == old(self).fb(),
                self.bus.log() == old(self).bus.log() + txs.take(digit as int),
            decreases 8 - digit,
        {
            let max_bytes = self.devices * 2;
            let mut buf: Vec<u8> = Vec::new();
            let mut m: usize = 0;
            while m < self.devices
                invariant
                    m <= self.devices,
                    buf@.len() == 2 * m,
                    digit < 8,
                    forall|j: int|
                        0 <= j < 2 * m ==> buf@[j] == row_transaction(
                            self.fb(),
                            self.devices as int,
                            digit as int,
                        )[j],
                decreases self.devices - m,
            {
                buf.push((digit as u8) + 1);
                proof {
                    assert(self.fb()[m as int] == self.buffer@[m as int]@);
                }
                let b = self.buffer[m][digit];
                buf.push(b);
                proof {
                    lemma_fundamental_div_mod_converse(2 * m as int, 2, m as int, 0);
                    lemma_fundamental_div_mod_converse(2 * m as int + 1, 2, m as int, 1);
                }
                m += 1;
            }
            proof {
                assert(buf@ =~= row_transaction(self.fb(), self.devices as int, digit as int));
            }
            match self.bus.write(buf.as_slice()) {
                Ok(()) => {},
                Err(e) => {
                    proof {
                        lemma_sent_prefix_intro(
                            old(self).bus.log(),
                            self.bus.log(),
                            txs,
                            digit as int,
                        );
                    }
                    return Err(e);
                },
            }
            proof {
                lemma_take_step(txs, digit as int);
                assert(self.bus.log() =~= old(self).bus.log() + txs.take(digit as int + 1));
            }
            digit += 1;
        }
        proof {
            lemma_take_all(txs);
        }
        Ok(())
    }

    /// Map logical pixel `(x, y)` to `(chain index, local column, local
    /// row)`; out-of-bounds pixels are reported as `None`, never an error.
    pub fn map_coordinates(&self, x: usize, y: usize) -> (r: Option<(usize, usize, usize)>)
        requires
            self.wf(),
        ensures
            r is Some <==> in_bounds(self.rows as int, self.columns as int, x as int, y as int),
            r matches Some(t) ==> {
                &&& t.0 == chain_index(self.rows as int, self.columns as int, x as int, y as int)
                &&& t.1 == x as int % 8
                &&& t.2 == y as int % 8
            },
    {
        if x < self.columns * 8 && y < self.rows * 8 {
            proof {
                lemma_chain_index_bounds(
                    self.rows as int,
                    self.columns as int,
                    x as int,
                    y as int,
                );
            }
            let display_col = x / 8;
            let display_row = y / 8;
            let display_idx = (self.rows - 1 - display_row) * self.columns + display_col;
            Some((display_idx, x % 8, y % 8))
        } else {
            None
        }
    }

    /// Drive pixel `(x, y)` to `on` in the framebuffer.  Out-of-bounds
    /// pixels are silently dropped; no bus traffic either way.
    pub fn set_pixel(&mut self, x: usize, y: usize, on: bool)
        requires
            old(self).wf(),
        ensures
            final(self).wf(),
            final(self).same_shape(*old(self)),
            final(self).bus == old(self).bus,
            in_bounds(old(self).rows as int, old(self).columns as int, x as int, y as int)
                ==> final(self).fb() == set_pixel_spec(
                old(self).fb(),
                old(self).rows as int,
                old(self).columns as int,
                x as int,
                y as int,
                on,
            ),
            !in_bounds(old(self).rows as int, old(self).columns as int, x as int, y as int)
                ==> final(self).fb() == old(self).fb(),
    {
        match self.map_coordinates(x, y) {
            Some((m, lx, ly)) => {
                proof {
                    lemma_chain_index_bounds(
                        self.rows as int,
                        self.columns as int,
                        x as int,
                        y as int,
                    );
                }
                let sh = (7 - lx) as u8;
                let mask: u8 = 1u8 << sh;
                proof {
                    assert(self.fb()[m as int] == self.buffer@[m as int]@);
                }
                let old_byte = self.buffer[m][ly];
                let new_byte = if on {
                    old_byte | mask
                } else {
                    old_byte & !mask
                };
                let mut new_row: Vec<u8> = Vec::new();
                let mut d: usize = 0;
                while d < 8
                    invariant
                        d <= 8,
                        new_row@.len() == d,
                        self.wf(),
                        m < self.devices,
                        ly < 8,
                        forall|j: int|
                            0 <= j < d ==> new_row@[j] == (if j == ly {
                                new_byte
                            } else {
                                self.fb()[m as int][j]
                            }),
                    decreases 8 - d,
                {
                    proof {
                        assert(self.fb()[m as int] == self.buffer@[m as int]@);
                    }
                    let cur = self.buffer[m][d];
                    if d == ly {
                        new_row.push(new_byte);
                    } else {
                        new_row.push(cur);
                    }
                    d += 1;
                }
                proof {
                    assert(new_row@ =~= self.fb()[m as int].update(ly as int, new_byte));
                }
                self.buffer.set(m, new_row);
                proof {
                    assert(self.fb() =~= set_pixel_spec(
                        old(self).fb(),
                        old(self).rows as int,
                        old(self).columns as int,
                        x as int,
                        y as int,
                        on,
                    ));
                }
            },
            None => {},
        }
    }

    /// Fill the whole framebuffer with `on` pixels (or clear it).  Mutates
    /// only the in-memory state; committing to hardware is `flush`'s job.
    pub fn clear(&mut self, on: bool)
        requires
            old(self).wf(),
        ensures
            final(self).wf(),
            final(self).same_shape(*old(self)),
            final(self).bus == old(self).bus,
            final(self).fb() == uniform_fb(
                old(self).devices as int,
                if on {
                    0xFFu8
                } else {
                    0x00u8
                },
            ),
    {
        let b: u8 = if on {
            0xFF
        } else {
            0x00
        };
        let devices = self.devices;
        let mut fresh: Vec<Vec<u8>> = Vec::new();
        let mut m: usize = 0;
        while m < devices
            invariant
                m <= devices,
                fresh@.len() == m,
                forall|i: int| 0 <= i < m ==> (#[trigger] fresh@[i])@ == Seq::new(8, |d: int| b),
            decreases devices - m,
        {
            let mut row: Vec<u8> = Vec::new();
            let mut d: usize = 0;
            while d < 8
                invariant
                    d <= 8,
                    row@.len() == d,
                    forall|j: int| 0 <= j < d ==> row@[j] == b,
                decreases 8 - d,
            {
                row.push(b);
                d += 1;
            }
            proof {
                assert(row@ =~= Seq::new(8, |j: int| b));
            }
            fresh.push(row);
            m += 1;
        }
        self.buffer = fresh;
        proof {
            assert(self.fb() =~= uniform_fb(old(self).devices as int, b));
        }
    }

    /// Fill the rectangle of `width x height` pixels whose top-left corner
    /// is `(x, y)` with `on` pixels, clipped to the canvas.  Every other
    /// pixel keeps its value; no bus traffic.
    #[verifier::loop_isolation(false)]
    pub fn fill_rect(&mut self, x: usize, y: usize, width: usize, height: usize, on: bool)
        requires
            old(self).wf(),
        ensures
            final(self).wf(),
            final(self).same_shape(*old(self)),
            final(self).bus == old(self).bus,
            forall|px: int, py: int|
                in_bounds(old(self).rows as int, old(self).columns as int, px, py)
                    ==> #[trigger] pixel_at(
                    final(self).fb(),
                    old(self).rows as int,
                    old(self).columns as int,
                    px,
                    py,
                ) == (if x <= px < x + width && y <= py < y + height {
                    on
                } else {
                    pixel_at(old(self).fb(), old(self).rows as int, old(self).columns as int, px, py)
                }),
    {
        let ghost rows_i = old(self).rows as int;
        let ghost cols_i = old(self).columns as int;
        let w8 = self.columns * 8;
        let h8 = self.rows * 8;
        let xe = if x >= w8 {
            x
        } else if width > w8 - x {
            w8
        } else {
            x + width
        };
        let ye = if y >= h8 {
            y
        } else if height > h8 - y {
            h8
        } else {
            y + height
        };
        let mut yy = y;
        while yy < ye
            invariant
                y <= yy <= ye,
                self.wf(),
                self.same_shape(*old(self)),
                self.bus == old(self).bus,
                forall|px: int, py: int|
                    in_bounds(rows_i, cols_i, px, py) ==> #[trigger] pixel_at(
                        self.fb(),
                        rows_i,
                        cols_i,
                        px,
                        py,
                    ) == (if x <= px < x + width && y <= py < y + height && py < yy {
                        on
                    } else {
                        pixel_at(old(self).fb(), rows_i, cols_i, px, py)
                    }),
            decreases ye - yy,
        {
            let mut xx = x;
            while xx < xe
                invariant
                    x <= xx <= xe,
                    yy < ye,
                    self.wf(),
                    self.same_shape(*old(self)),
                    self.bus == old(self).bus,
                    forall|px: int, py: int|
                        in_bounds(rows_i, cols_i, px, py) ==> #[trigger] pixel_at(
                            self.fb(),
                            rows_i,
                            cols_i,
                            px,
                            py,
                        ) == (if x <= px < x + width && y <= py < y + height && (py < yy || (py
                            == yy && px < xx)) {
                            on
                        } else {
                            pixel_at(old(self).fb(), rows_i, cols_i, px, py)
                        }),
                decreases xe - xx,
            {
                let ghost fb_prev = self.fb();
                self.set_pixel(xx, yy, on);
                proof {
                    assert(in_bounds(rows_i, cols_i, xx as int, yy as int));
                    assert forall|px: int, py: int|
                        in_bounds(rows_i, cols_i, px, py) implies #[trigger] pixel_at(
                        self.fb(),
                        rows_i,
                        cols_i,
                        px,
                        py,
                    ) == (if px == xx as int && py == yy as int {
                        on
                    } else {
                        pixel_at(fb_prev, rows_i, cols_i, px, py)
                    }) by {
                        lemma_set_pixel_pointwise(
                            fb_prev,
                            rows_i,
                            cols_i,
                            xx as int,
                            yy as int,
                            on,
                            px,
                            py,
                        );
                    }
                }
                xx += 1;
            }
            yy += 1;
        }
    }
}

/// An aborted step inside module `i`'s configuration leaves the log a
/// prefix of the whole initialization traffic.
proof fn lemma_init_abort(old_log: Seq<Seq<u8>>, cur_log: Seq<Seq<u8>>, d: int, i: int)
    requires
        0 <= i < d,
        sent_prefix(
            old_log + config_transactions_upto(d, i),
            cur_log,
            module_config_transactions(d, i),
        ),
    ensures
        sent_prefix(old_log, cur_log, init_transactions(d)),
{
    lemma_sent_prefix_shift(
        old_log,
        old_log + config_transactions_upto(d, i),
        cur_log,
        config_transactions_upto(d, i),
        module_config_transactions(d, i),
    );
    assert(config_transactions_upto(d, i + 1) == config_transactions_upto(d, i)
        + module_config_transactions(d, i));
    lemma_sent_prefix_config_mono(old_log, cur_log, d, i + 1, d);
    lemma_sent_prefix_weaken(
        old_log,
        cur_log,
        config_transactions_upto(d, d),
        power_transactions(d, 0x00),
    );
}

} // verus!

