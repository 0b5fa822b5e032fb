use jd79661::mock::CountdownPin;
use jd79661::mock::FailSpi;
use jd79661::mock::LimitedSpi;
use jd79661::mock::MockDelay;
use jd79661::mock::MockPin;
use jd79661::mock::MockSpi;
use jd79661::mock::ReadyPin;
use jd79661::DisplayBuffer;
use jd79661::Jd79661;
use jd79661::QuadColor;

/// Every byte the power-up sequence must put on the wire, in order.
fn expected_init_bytes() -> Vec<u8> {
    vec![
        0x01, // software reset
        0x4D, 0x78, // vendor magic
        0x00, 0x8F, 0x29, // panel setting
        0x01, 0x07, 0x00, // power setting
        0x03, 0x10, 0x54, 0x44, // power offset
        0x06, 0x05, 0x00, 0x3F, 0x0A, 0x25, 0x12, 0x1A, // booster soft start
        0x50, 0x37, // CDI
        0x60, 0x02, 0x02, 0x02, // TCON
        0x61, 0x00, 0x80, 0x00, 0xFA, // resolution
        0xE7, 0x1C, 0xE3, 0x22, 0xB4, 0xD0, 0xB5, 0x03, 0xE9, 0x01, 0x30,
        0x08, // vendor tuning registers
        0x04, // power on
    ]
}

fn ready_driver() -> (Jd79661<MockPin, ReadyPin, MockPin, MockPin>, MockSpi) {
    let mut spi = MockSpi::new();
    let mut delay = MockDelay::new();
    let driver = Jd79661::new(
        &mut spi,
        MockPin::new(),
        ReadyPin::new(),
        MockPin::new(),
        MockPin::new(),
        &mut delay,
    )
    .expect("mock SPI never fails");
    (driver, spi)
}

#[test]
fn power_up_sends_exact_init_sequence() {
    let (_driver, spi) = ready_driver();
    assert_eq!(spi.log, expected_init_bytes());
}

#[test]
fn power_up_busy_polls_and_delays() {
    let mut spi = MockSpi::new();
    let mut delay = MockDelay::new();
    let driver = Jd79661::new(
        &mut spi,
        MockPin::new(),
        CountdownPin::new(5),
        MockPin::new(),
        MockPin::new(),
        &mut delay,
    );
    assert!(driver.is_ok());
    assert_eq!(spi.log, expected_init_bytes());
    // two reset-pulse delays plus one delay per poll that saw the line low
    assert_eq!(delay.calls, 2 + 5);
}

#[test]
fn cleared_frame_is_all_white_codes() {
    let (mut driver, _) = ready_driver();
    let buf = DisplayBuffer::new();
    let mut spi = MockSpi::new();
    driver
        .update_frames(&mut spi, &buf)
        .expect("mock SPI never fails");
    assert_eq!(spi.log.len(), 8001);
    assert_eq!(spi.log[0], 0x10);
    assert!(spi.log[1..].iter().all(|&b| b == 0b0101_0101));
}

#[test]
fn single_black_pixel_lands_transposed() {
    let (mut driver, _) = ready_driver();
    let mut buf = DisplayBuffer::new();
    buf.draw_pixel(5, 10, QuadColor::Black);
    let mut spi = MockSpi::new();
    driver
        .update_frames(&mut spi, &buf)
        .expect("mock SPI never fails");
    assert_eq!(spi.log.len(), 8001);
    // panel row ly = x = 5; panel column rx = 121 - y = 111, i.e. byte
    // 111 / 4 = 27 of that row, lowest 2-bit slot
    let pos = 1 + 5 * 32 + 27;
    assert_eq!(spi.log[pos], 0b0101_0100);
    for (i, &b) in spi.log.iter().enumerate().skip(1) {
        if i != pos {
            assert_eq!(b, 0b0101_0101, "byte {} differs", i);
        }
    }
}

#[test]
fn padding_bytes_are_fixed_whatever_is_drawn() {
    let (mut driver, _) = ready_driver();
    let mut buf = DisplayBuffer::new();
    for y in 0..122 {
        for x in 0..250 {
            buf.draw_pixel(x, y, QuadColor::Red);
        }
    }
    let mut spi = MockSpi::new();
    driver
        .update_frames(&mut spi, &buf)
        .expect("mock SPI never fails");
    let data = &spi.log[1..];
    for ly in 0..250 {
        // the first 30 bytes of a row show the red content, code 3 in
        // every slot
        for g in 0..30 {
            assert_eq!(data[32 * ly + g], 0xFF);
        }
        // the byte straddling the buffer edge carries the filler code 1
        // in its low two slots, the last byte in all four
        assert_eq!(data[32 * ly + 30], 0xF5);
        assert_eq!(data[32 * ly + 31], 0x55);
    }
}

#[test]
fn display_frame_sends_refresh_opcode() {
    let (mut driver, _) = ready_driver();
    let mut spi = MockSpi::new();
    let mut delay = MockDelay::new();
    driver
        .display_frame(&mut spi, &mut delay)
        .expect("mock SPI never fails");
    assert_eq!(spi.log, vec![0x12]);
}

#[test]
fn construction_error_propagates() {
    let mut spi = FailSpi::new();
    let mut delay = MockDelay::new();
    let driver = Jd79661::new(
        &mut spi,
        MockPin::new(),
        ReadyPin::new(),
        MockPin::new(),
        MockPin::new(),
        &mut delay,
    );
    assert_eq!(driver.err(), Some(()));
}

#[test]
fn construction_error_mid_sequence_propagates() {
    // enough for the software reset and the magic opcode, not its payload
    let mut spi = LimitedSpi::new(2);
    let mut delay = MockDelay::new();
    let driver = Jd79661::new(
        &mut spi,
        MockPin::new(),
        ReadyPin::new(),
        MockPin::new(),
        MockPin::new(),
        &mut delay,
    );
    assert_eq!(driver.err(), Some(()));
    assert_eq!(spi.log, vec![0x01, 0x4D]);
}

#[test]
fn frame_transfer_error_propagates() {
    let (mut driver, _) = ready_driver();
    let buf = DisplayBuffer::new();
    let mut spi = LimitedSpi::new(100);
    assert_eq!(driver.update_frames(&mut spi, &buf).err(), Some(()));
    assert_eq!(spi.log.len(), 100);
}

#[test]
fn refresh_error_propagates() {
    let (mut driver, _) = ready_driver();
    let mut spi = FailSpi::new();
    let mut delay = MockDelay::new();
    assert_eq!(driver.display_frame(&mut spi, &mut delay).err(), Some(()));
}
