use epd_rs::drivers::E0213A367;
use epd_rs::frame::{reverse_byte, word_bytes};
use epd_rs::geometry::{BinaryColor, Pixel, Point, Size};
use epd_rs::transfer::{run_step, RunAction, Transfer};
use epd_rs::{DisplayError, DisplayRotation, EpdDisplay};

fn cmd(b: u8) -> Transfer {
    Transfer::Command(vec![b])
}

fn data(bytes: &[u8]) -> Transfer {
    Transfer::Data(bytes.to_vec())
}

#[test]
fn reverse_byte_values() {
    assert_eq!(reverse_byte(0x01), 0x80);
    assert_eq!(reverse_byte(0x80), 0x01);
    assert_eq!(reverse_byte(0xF0), 0x0F);
    assert_eq!(reverse_byte(0b1011_0010), 0b0100_1101);
    for b in 0..=255u8 {
        assert_eq!(reverse_byte(b), b.reverse_bits());
    }
}

#[test]
fn word_bytes_match_reversed_big_endian_word() {
    for w in [0usize, 1, 0x0100, usize::MAX, 0x1234_5678, 0x8000_0001] {
        assert_eq!(word_bytes(w), w.reverse_bits().to_be_bytes().to_vec());
    }
    let bytes = word_bytes(1);
    assert_eq!(bytes[0], 0x80);
    assert!(bytes[1..].iter().all(|b| *b == 0));
    assert_eq!(bytes.len(), usize::BITS as usize / 8);
}

#[test]
fn driver_dimensions() {
    assert_eq!(E0213A367::new().dimensions(), Size { width: 128, height: 250 });
}

#[test]
fn init_sequence() {
    let expected = vec![
        cmd(0x12),
        Transfer::WaitUntilIdle,
        cmd(0x37),
        data(&[0x00, 0x80, 0x03, 0x0E]),
        cmd(0x3C),
        data(&[0x01]),
    ];
    assert_eq!(E0213A367::new().init(), expected);
    let mut with_reset = vec![Transfer::Reset];
    with_reset.extend(expected);
    assert_eq!(E0213A367::new().init_after_reset(), with_reset);
}

fn refresh_of(display: &EpdDisplay) -> Vec<Transfer> {
    E0213A367::new().refresh(display.frame_buffer())
}

#[test]
fn refresh_sequence_frame() {
    let driver = E0213A367::new();
    let mut display = EpdDisplay::new(driver.dimensions(), DisplayRotation::Rotate0);
    display.clear(BinaryColor::Off).unwrap();
    display.draw_iter(&[Pixel(Point { x: 0, y: 0 }, BinaryColor::On)]).unwrap();
    let transfers = refresh_of(&display);
    let words = 32000 / usize::BITS as usize;
    assert_eq!(transfers.len(), 2 * words + 20);
    let head = vec![
        cmd(0x11), data(&[0x03]), cmd(0x44), data(&[0x00, 0x0F]), cmd(0x45), data(&[0x00, 250]),
        cmd(0x4E), data(&[0x00]), cmd(0x4F), data(&[0x00]), cmd(0x24),
    ];
    assert_eq!(&transfers[..11], &head[..]);
    let middle = vec![cmd(0x4E), data(&[0x00]), cmd(0x4F), data(&[0x00]), cmd(0x26)];
    assert_eq!(&transfers[11 + words..16 + words], &middle[..]);
    let tail = vec![cmd(0x22), data(&[0xF7]), cmd(0x20), Transfer::WaitUntilIdle];
    assert_eq!(&transfers[16 + 2 * words..], &tail[..]);
    for ram in [&transfers[11..11 + words], &transfers[16 + words..16 + 2 * words]] {
        let mut bytes = Vec::new();
        for t in ram {
            match t {
                Transfer::Data(b) => bytes.extend_from_slice(b),
                other => panic!("unexpected {:?}", other),
            }
        }
        // 16 bytes per row, 250 rows
        assert_eq!(bytes.len(), 4000);
        assert_eq!(bytes[0], 0x7F);
        assert!(bytes[1..].iter().all(|b| *b == 0xFF));
    }
}

#[test]
fn refresh_bytes_follow_pixel_order() {
    let driver = E0213A367::new();
    let mut display = EpdDisplay::new(driver.dimensions(), DisplayRotation::Rotate0);
    // pixels 9 and 15 of the first row, and the last pixel of row 1
    display.draw_iter(&[
        Pixel(Point { x: 9, y: 0 }, BinaryColor::Off),
        Pixel(Point { x: 15, y: 0 }, BinaryColor::Off),
        Pixel(Point { x: 127, y: 1 }, BinaryColor::Off),
    ]).unwrap();
    let transfers = refresh_of(&display);
    let mut bytes = Vec::new();
    let words = 32000 / usize::BITS as usize;
    for t in &transfers[11..11 + words] {
        if let Transfer::Data(b) = t {
            bytes.extend_from_slice(b);
        }
    }
    assert_eq!(bytes[0], 0);
    assert_eq!(bytes[1], 0b0100_0001);
    assert_eq!(bytes[31], 0b0000_0001);
    assert_eq!(bytes.iter().filter(|b| **b != 0).count(), 2);
}

fn drive(len: usize, outcomes: &[Result<(), DisplayError>]) -> (usize, Result<(), DisplayError>) {
    let mut performed = 0;
    let mut last = Ok(());
    loop {
        match run_step(len, performed, last) {
            RunAction::Perform(i) => {
                assert_eq!(i, performed);
                last = outcomes[i];
                performed += 1;
            }
            RunAction::Finish(r) => return (performed, r),
        }
    }
}

#[test]
fn run_performs_everything_when_all_succeed() {
    assert_eq!(drive(3, &[Ok(()), Ok(()), Ok(())]), (3, Ok(())));
    assert_eq!(drive(0, &[]), (0, Ok(())));
}

#[test]
fn run_stops_at_first_error() {
    let outcomes = [Ok(()), Err(DisplayError::BusWriteError), Err(DisplayError::DCError)];
    assert_eq!(drive(3, &outcomes), (2, Err(DisplayError::BusWriteError)));
    assert_eq!(drive(2, &[Err(DisplayError::CSError), Ok(())]), (1, Err(DisplayError::CSError)));
}

#[test]
fn run_step_single_decisions() {
    assert_eq!(run_step(4, 2, Ok(())), RunAction::Perform(2));
    assert_eq!(run_step(4, 4, Ok(())), RunAction::Finish(Ok(())));
    assert_eq!(
        run_step(4, 3, Err(DisplayError::RSError)),
        RunAction::Finish(Err(DisplayError::RSError))
    );
}

#[test]
fn refresh_sends_clear_bits_past_the_last_pixel() {
    let mut display = EpdDisplay::new(Size { width: 4, height: 3 }, DisplayRotation::Rotate0);
    display.clear(BinaryColor::Off).unwrap();
    let transfers = refresh_of(&display);
    // 12 pixels fit in one word
    assert_eq!(transfers.len(), 22);
    match &transfers[11] {
        Transfer::Data(bytes) => {
            assert_eq!(bytes.len(), usize::BITS as usize / 8);
            assert_eq!(bytes[0], 0xFF);
            assert_eq!(bytes[1], 0xF0);
            assert!(bytes[2..].iter().all(|b| *b == 0));
        }
        other => panic!("unexpected {:?}", other),
    }
    assert_eq!(transfers[11], transfers[17]);
}
