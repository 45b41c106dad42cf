use max7219_chain::bus::{Bus, BusFault, RecordingBus};
use max7219_chain::driver::{DecodeMode, Max7219};

fn single_tx(devices: usize, addr: usize, reg: u8, data: u8) -> Vec<u8> {
    let mut v = vec![0u8; devices * 2];
    v[addr * 2] = reg;
    v[addr * 2 + 1] = data;
    v
}

fn fresh(rows: usize, columns: usize) -> Max7219<RecordingBus> {
    Max7219::new(RecordingBus::new(), rows, columns)
}

#[test]
fn new_framebuffer_zeroed_and_size() {
    let d = fresh(2, 3);
    assert_eq!(d.devices, 6);
    assert_eq!(d.buffer.len(), 6);
    for row in &d.buffer {
        assert_eq!(row, &vec![0u8; 8]);
    }
    assert_eq!(d.size(), (24, 16));
    assert!(d.bus.sent.is_empty());
}

#[test]
fn map_coordinates_three_wide_row() {
    let d = fresh(1, 3);
    assert_eq!(d.map_coordinates(0, 0), Some((0, 0, 0)));
    assert_eq!(d.map_coordinates(16, 0), Some((2, 0, 0)));
}

#[test]
fn map_coordinates_reverse_row_order() {
    let d = fresh(3, 15);
    assert_eq!(d.map_coordinates(0, 0), Some((30, 0, 0)));
    assert_eq!(d.map_coordinates(0, 16), Some((0, 0, 0)));
    assert_eq!(d.map_coordinates(13, 10), Some((16, 5, 2)));
}

#[test]
fn map_coordinates_out_of_bounds() {
    let d = fresh(1, 3);
    assert_eq!(d.map_coordinates(24, 0), None);
    assert_eq!(d.map_coordinates(0, 8), None);
    assert_eq!(d.map_coordinates(100, 100), None);
}

#[test]
fn mapping_is_a_bijection_on_a_grid() {
    let d = fresh(2, 3);
    for x in 0..24usize {
        for y in 0..16usize {
            let (m, lx, ly) = d.map_coordinates(x, y).unwrap();
            assert!(m < 6 && lx < 8 && ly < 8);
            let back_x = (m % 3) * 8 + lx;
            let back_y = (2 - 1 - m / 3) * 8 + ly;
            assert_eq!((back_x, back_y), (x, y));
        }
    }
    for m in 0..6usize {
        for lx in 0..8usize {
            for ly in 0..8usize {
                let x = (m % 3) * 8 + lx;
                let y = (2 - 1 - m / 3) * 8 + ly;
                assert_eq!(d.map_coordinates(x, y), Some((m, lx, ly)));
            }
        }
    }
}

#[test]
fn write_raw_single_transaction() {
    let mut d = fresh(1, 2);
    d.write_raw(1, 0x0F, 0x01).unwrap();
    assert_eq!(d.bus.sent, vec![vec![0, 0, 0x0F, 0x01]]);
}

#[test]
fn power_on_transactions() {
    let mut d = fresh(1, 2);
    d.power_on().unwrap();
    assert_eq!(
        d.bus.sent,
        vec![single_tx(2, 0, 0x0C, 0x01), single_tx(2, 1, 0x0C, 0x01)]
    );
}

#[test]
fn power_off_transactions() {
    let mut d = fresh(1, 2);
    d.power_off().unwrap();
    assert_eq!(
        d.bus.sent,
        vec![single_tx(2, 0, 0x0C, 0x00), single_tx(2, 1, 0x0C, 0x00)]
    );
}

#[test]
fn test_mode_bytes() {
    let mut d = fresh(1, 2);
    d.test(0, true).unwrap();
    d.test(0, false).unwrap();
    assert_eq!(
        d.bus.sent,
        vec![single_tx(2, 0, 0x0F, 0x01), single_tx(2, 0, 0x0F, 0x00)]
    );
}

#[test]
fn intensity_and_decode_mode_bytes() {
    let mut d = fresh(1, 2);
    d.set_intensity(1, 7).unwrap();
    d.set_decode_mode(1, DecodeMode::NoDecode).unwrap();
    assert_eq!(
        d.bus.sent,
        vec![single_tx(2, 1, 0x0A, 0x07), single_tx(2, 1, 0x09, 0x00)]
    );
}

#[test]
fn clear_display_bytes() {
    let mut d = fresh(1, 2);
    d.clear_display(1).unwrap();
    let expected: Vec<Vec<u8>> = (1..=8u8).map(|r| single_tx(2, 1, r, 0x00)).collect();
    assert_eq!(d.bus.sent, expected);
}

#[test]
fn init_sequence_per_module_then_power_off() {
    let mut d = fresh(1, 2);
    d.init().unwrap();
    let mut expected: Vec<Vec<u8>> = Vec::new();
    for addr in 0..2usize {
        expected.push(single_tx(2, addr, 0x0F, 0x00));
        expected.push(single_tx(2, addr, 0x0B, 0x07));
        expected.push(single_tx(2, addr, 0x0A, 0x01));
        expected.push(single_tx(2, addr, 0x09, 0x00));
        for r in 1..=8u8 {
            expected.push(single_tx(2, addr, r, 0x00));
        }
    }
    expected.push(single_tx(2, 0, 0x0C, 0x00));
    expected.push(single_tx(2, 1, 0x0C, 0x00));
    assert_eq!(d.bus.sent, expected);
}

#[test]
fn flush_fresh_canvas_shape() {
    let mut d = fresh(2, 2);
    d.flush().unwrap();
    assert_eq!(d.bus.sent.len(), 8);
    for (digit, tx) in d.bus.sent.iter().enumerate() {
        assert_eq!(tx.len(), 8);
        for module in 0..4usize {
            assert_eq!(tx[module * 2], digit as u8 + 1);
            assert_eq!(tx[module * 2 + 1], 0x00);
        }
    }
}

#[test]
fn clear_then_flush_sends_all_zero_data() {
    let mut d = fresh(2, 2);
    d.set_pixel(0, 0, true);
    d.set_pixel(9, 9, true);
    d.clear(false);
    d.flush().unwrap();
    for tx in &d.bus.sent {
        for module in 0..4usize {
            assert_eq!(tx[module * 2 + 1], 0x00);
        }
    }
}

#[test]
fn flush_reflects_set_pixels() {
    let mut d = fresh(1, 1);
    d.set_pixel(0, 0, true);
    d.set_pixel(7, 7, true);
    d.flush().unwrap();
    assert_eq!(d.bus.sent[0], vec![1, 0x80]);
    assert_eq!(d.bus.sent[7], vec![8, 0x01]);
    for digit in 1..7usize {
        assert_eq!(d.bus.sent[digit], vec![digit as u8 + 1, 0x00]);
    }
}

#[test]
fn flush_aborts_on_bus_failure() {
    let mut d = Max7219::new(RecordingBus::failing_at(3), 2, 1);
    d.set_pixel(0, 0, true);
    let before = d.buffer.clone();
    assert_eq!(d.flush(), Err(BusFault));
    assert_eq!(d.bus.sent.len(), 3);
    for (digit, tx) in d.bus.sent.iter().enumerate() {
        assert_eq!(tx.len(), 4);
        assert_eq!(tx[0], digit as u8 + 1);
        assert_eq!(tx[2], digit as u8 + 1);
    }
    assert_eq!(d.buffer, before);
}

#[test]
fn init_aborts_on_bus_failure() {
    let mut d = Max7219::new(RecordingBus::failing_at(2), 1, 1);
    assert_eq!(d.init(), Err(BusFault));
    assert_eq!(
        d.bus.sent,
        vec![single_tx(1, 0, 0x0F, 0x00), single_tx(1, 0, 0x0B, 0x07)]
    );
}

#[test]
fn set_pixel_on_then_off_restores_framebuffer() {
    let mut d = fresh(2, 2);
    d.set_pixel(5, 3, true);
    let before = d.buffer.clone();
    d.set_pixel(2, 9, true);
    d.set_pixel(2, 9, false);
    assert_eq!(d.buffer, before);
}

#[test]
fn set_pixel_out_of_bounds_is_ignored() {
    let mut d = fresh(1, 1);
    let before = d.buffer.clone();
    d.set_pixel(8, 0, true);
    d.set_pixel(0, 8, true);
    d.set_pixel(1000, 1000, true);
    assert_eq!(d.buffer, before);
    assert!(d.bus.sent.is_empty());
}

#[test]
fn set_pixel_bit_positions() {
    let mut d = fresh(1, 1);
    d.set_pixel(0, 0, true);
    assert_eq!(d.buffer[0][0], 0x80);
    d.set_pixel(3, 2, true);
    assert_eq!(d.buffer[0][2], 0x10);
    d.set_pixel(7, 2, true);
    assert_eq!(d.buffer[0][2], 0x11);
    d.set_pixel(3, 2, false);
    assert_eq!(d.buffer[0][2], 0x01);
}

#[test]
fn fill_rect_fills_and_clips() {
    let mut d = fresh(1, 1);
    d.fill_rect(2, 1, 3, 2, true);
    assert_eq!(d.buffer[0][0], 0x00);
    assert_eq!(d.buffer[0][1], 0x38);
    assert_eq!(d.buffer[0][2], 0x38);
    assert_eq!(d.buffer[0][3], 0x00);
    d.fill_rect(6, 6, 10, 10, true);
    assert_eq!(d.buffer[0][6], 0x03);
    assert_eq!(d.buffer[0][7], 0x03);
    assert!(d.bus.sent.is_empty());
}

#[test]
fn clear_canvas_in_memory_only() {
    let mut d = fresh(1, 2);
    d.clear(true);
    for row in &d.buffer {
        assert_eq!(row, &vec![0xFFu8; 8]);
    }
    d.clear(false);
    for row in &d.buffer {
        assert_eq!(row, &vec![0x00u8; 8]);
    }
    assert!(d.bus.sent.is_empty());
}

#[test]
fn write_display_bytes() {
    let mut d = fresh(1, 2);
    let raw: [u8; 8] = [1, 2, 3, 4, 5, 6, 7, 8];
    d.write_display(1, &raw).unwrap();
    assert_eq!(d.bus.sent.len(), 9);
    assert_eq!(d.bus.sent[0], single_tx(2, 0, 0x09, 0x00));
    for (i, b) in raw.iter().enumerate() {
        assert_eq!(d.bus.sent[i + 1], single_tx(2, 1, i as u8 + 1, *b));
    }
}

#[test]
fn recording_bus_scripted_failure() {
    let mut bus = RecordingBus::failing_at(0);
    assert_eq!(bus.write(&[1, 2, 3]), Err(BusFault));
    assert!(bus.sent.is_empty());
    let mut ok_bus = RecordingBus::new();
    assert_eq!(ok_bus.write(&[9, 8]), Ok(()));
    assert_eq!(ok_bus.sent, vec![vec![9, 8]]);
}

struct CountingBus {
    writes: usize,
    fail_all: bool,
}

impl Bus for CountingBus {
    type BusError = u8;

    fn write(&mut self, _bytes: &[u8]) -> Result<(), u8> {
        if self.fail_all {
            Err(7)
        } else {
            self.writes += 1;
            Ok(())
        }
    }
}

#[test]
fn any_bus_implementation_can_carry_the_chain() {
    let mut d = Max7219::new(CountingBus { writes: 0, fail_all: false }, 1, 1);
    d.flush().unwrap();
    assert_eq!(d.bus.writes, 8);
    let mut failing = Max7219::new(CountingBus { writes: 0, fail_all: true }, 1, 1);
    assert_eq!(failing.flush(), Err(7));
    assert_eq!(failing.bus.writes, 0);
}
