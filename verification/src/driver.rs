//! The JD79661 controller driver: power-up command sequence, busy-wait
//! protocol, and the transcoding of a [`DisplayBuffer`] into the panel's
//! column-major 2-bit-per-pixel wire format.

use vstd::prelude::*;

use crate::buffer::all_clear;
use crate::buffer::bit_high;
use crate::buffer::bit_index;
use crate::buffer::byte_index;
use crate::buffer::color_at;
use crate::buffer::draw_spec;
use crate::buffer::in_bounds;
use crate::buffer::lemma_cleared_reads_white;
use crate::buffer::lemma_draw_reads_back;
use crate::buffer::DisplayBuffer;
use crate::buffer::PlanesView;
use crate::buffer::QuadColor;
use crate::buffer::WIDTH;
use crate::hal::DelayMs;
use crate::hal::InPin;
use crate::hal::OutPin;
use crate::hal::SpiWrite;

verus! {

/// Every byte the power-up sequence sends, in order: the software reset,
/// the vendor's literal configuration table, and the power-on command.
/// The panel accepts exactly these values; none of them is computed.
pub open spec fn init_sequence() -> Seq<u8> {
    seq![
        0x01u8,
        0x4Du8, 0x78u8,
        0x00u8, 0x8Fu8, 0x29u8,
        0x01u8, 0x07u8, 0x00u8,
        0x03u8, 0x10u8, 0x54u8, 0x44u8,
        0x06u8, 0x05u8, 0x00u8, 0x3Fu8, 0x0Au8, 0x25u8, 0x12u8, 0x1Au8,
        0x50u8, 0x37u8,
        0x60u8, 0x02u8, 0x02u8, 0x02u8,
        0x61u8, 0x00u8, 0x80u8, 0x00u8, 0xFAu8,
        0xE7u8, 0x1Cu8,
        0xE3u8, 0x22u8,
        0xB4u8, 0xD0u8,
        0xB5u8, 0x03u8,
        0xE9u8, 0x01u8,
        0x30u8, 0x08u8,
        0x04u8,
    ]
}

/// The panel's 2-bit color codes, as observed on hardware.
pub open spec fn color_code(c: QuadColor) -> u8 {
    match c {
        QuadColor::Black => 0u8,
        QuadColor::White => 1u8,
        QuadColor::Yellow => 2u8,
        QuadColor::Red => 3u8,
    }
}

/// The code sent for panel position `(rx, ry)`: panel row `ry` shows buffer
/// column `x = ry`, panel column `rx` shows buffer row `y = 121 - rx`, a
/// 90-degree swap with a mirrored column range. The panel has 128 columns
/// but the buffer only 122 rows; positions beyond them carry the fixed
/// filler code 1.
pub open spec fn wire_code(v: PlanesView, rx: int, ry: int) -> u8 {
    if ry < 250 && rx < 122 {
        color_code(color_at(v, ry, 121 - rx))
    } else {
        1u8
    }
}

/// One wire byte: the codes of four consecutive panel columns of one row,
/// the first code in the two most significant bits.
pub open spec fn frame_byte(v: PlanesView, ly: int, g: int) -> u8 {
    (wire_code(v, 4 * g, ly) * 64 + wire_code(v, 4 * g + 1, ly) * 16
        + wire_code(v, 4 * g + 2, ly) * 4 + wire_code(v, 4 * g + 3, ly)) as u8
}

/// The full frame as it crosses the wire: 250 panel rows of 32 bytes each.
pub open spec fn frame_bytes(v: PlanesView) -> Seq<u8> {
    Seq::new(8000, |k: int| frame_byte(v, k / 32, k % 32))
}

/// Reads the three plane bits of one buffer position and maps them to the
/// panel's 2-bit code; positions beyond the buffer carry the filler code.
fn pixel_code(display: &DisplayBuffer, rx: usize, ry: usize) -> (c: u8)
    requires
        display.wf(),
        rx < 128,
        ry < 250,
    ensures
        c == wire_code(display@, rx as int, ry as int),
        c < 4,
{
    if rx < 122 {
        let x: usize = ry;
        let y: usize = 121 - rx;
        proof {
            assert(y * WIDTH + x < WIDTH * 122) by (nonlinear_arith)
                requires
                    x < WIDTH,
                    y < 122,
                    WIDTH == 250,
            ;
        }
        let idx: usize = (y * WIDTH + x) / 8;
        let bit: u8 = 7 - ((x % 8) as u8);
        let b_bw: u8 = display.bw[idx];
        let b_red: u8 = display.red[idx];
        let b_yellow: u8 = display.yellow[idx];
        let v_bw: u8 = (b_bw >> bit) & 1;
        let v_red: u8 = (b_red >> bit) & 1;
        let v_yellow: u8 = (b_yellow >> bit) & 1;
        let code: u8 = if v_red == 0 {
            3
        } else if v_yellow == 0 {
            2
        } else if v_bw == 0 {
            0
        } else {
            1
        };
        proof {
            assert(idx == byte_index(x as int, y as int));
            assert(bit == bit_index(x as int));
            assert(((b_bw >> bit) & 1 == 0) <==> !bit_high(b_bw, bit)) by (bit_vector)
                requires
                    bit < 8,
            ;
            assert(((b_red >> bit) & 1 == 0) <==> !bit_high(b_red, bit)) by (bit_vector)
                requires
                    bit < 8,
            ;
            assert(((b_yellow >> bit) & 1 == 0) <==> !bit_high(b_yellow, bit)) by (bit_vector)
                requires
                    bit < 8,
            ;
        }
        code
    } else {
        1
    }
}

/// Each panel position's 2-bit code can be read back out of its packed wire
/// byte: position `(rx, ly)` sits in byte `32*ly + rx/4` of the frame, in
/// the 2-bit slot `rx % 4` counted from the most significant end.
pub proof fn lemma_frame_slot(v: PlanesView, rx: int, ly: int)
    requires
        0 <= rx < 128,
        0 <= ly < 250,
    ensures
        (frame_bytes(v)[32 * ly + rx / 4] >> (((3 - rx % 4) * 2) as u8)) & 3 == wire_code(
            v,
            rx,
            ly,
        ),
{
    let g = rx / 4;
    let j = rx % 4;
    assert(0 <= g < 32 && 0 <= j < 4 && rx == 4 * g + j) by (nonlinear_arith)
        requires
            0 <= rx < 128,
            g == rx / 4,
            j == rx % 4,
    ;
    let n = 32 * ly + g;
    assert(0 <= n < 8000 && n / 32 == ly && n % 32 == g) by (nonlinear_arith)
        requires
            n == 32 * ly + g,
            0 <= g < 32,
            0 <= ly < 250,
    ;
    let c0 = wire_code(v, 4 * g, ly);
    let c1 = wire_code(v, 4 * g + 1, ly);
    let c2 = wire_code(v, 4 * g + 2, ly);
    let c3 = wire_code(v, 4 * g + 3, ly);
    let byte = frame_bytes(v)[n];
    assert(byte == (c0 * 64 + c1 * 16 + c2 * 4 + c3) as u8);
    let jb: u8 = j as u8;
    let ju: u8 = ((3 - jb) * 2) as u8;
    assert((byte >> ju) & 3 == (if jb == 0 {
        c0
    } else if jb == 1 {
        c1
    } else if jb == 2 {
        c2
    } else {
        c3
    })) by (bit_vector)
        requires
            byte == (c0 * 64 + c1 * 16 + c2 * 4 + c3) as u8,
            c0 < 4,
            c1 < 4,
            c2 < 4,
            c3 < 4,
            jb < 4,
            ju == (3 - jb) * 2,
    ;
}

/// A fully cleared buffer transcodes to white codes only: every byte of
/// the frame is 0x55, the filler positions included.
pub proof fn lemma_cleared_frame_all_white(v: PlanesView, k: int)
    requires
        v.wf(),
        all_clear(v),
        0 <= k < 8000,
    ensures
        frame_bytes(v)[k] == 0x55u8,
{
    let ly = k / 32;
    let g = k % 32;
    assert(0 <= ly < 250 && 0 <= g < 32 && k == 32 * ly + g) by (nonlinear_arith)
        requires
            0 <= k < 8000,
            ly == k / 32,
            g == k % 32,
    ;
    if 4 * g < 122 {
        lemma_cleared_reads_white(v, ly, 121 - 4 * g);
    }
    if 4 * g + 1 < 122 {
        lemma_cleared_reads_white(v, ly, 121 - (4 * g + 1));
    }
    if 4 * g + 2 < 122 {
        lemma_cleared_reads_white(v, ly, 121 - (4 * g + 2));
    }
    if 4 * g + 3 < 122 {
        lemma_cleared_reads_white(v, ly, 121 - (4 * g + 3));
    }
    assert(wire_code(v, 4 * g, ly) == 1u8);
    assert(wire_code(v, 4 * g + 1, ly) == 1u8);
    assert(wire_code(v, 4 * g + 2, ly) == 1u8);
    assert(wire_code(v, 4 * g + 3, ly) == 1u8);
}

/// Transposition correctness: after a draw of `c` at in-bounds `(x, y)`,
/// the frame's 2-bit slot for panel position `(rx, ly) = (121 - y, x)`
/// reads back exactly the code of `c`.
pub proof fn lemma_draw_lands_transposed(v: PlanesView, x: int, y: int, c: QuadColor)
    requires
        v.wf(),
        in_bounds(x, y),
    ensures
        (frame_bytes(draw_spec(v, x, y, c))[32 * x + (121 - y) / 4] >> (((3 - (121 - y) % 4)
            * 2) as u8)) & 3 == color_code(c),
{
    let v1 = draw_spec(v, x, y, c);
    let rx = 121 - y;
    lemma_frame_slot(v1, rx, x);
    lemma_draw_reads_back(v, x, y, c);
}

/// Wire bytes lie beyond the buffer wherever their panel columns reach 122
/// or more: the last byte of every row carries the filler code 1 in all
/// four slots, and the byte straddling the edge carries it in its low two,
/// whatever the buffer holds.
pub proof fn lemma_frame_padding(v: PlanesView, ly: int)
    requires
        0 <= ly < 250,
    ensures
        frame_bytes(v)[32 * ly + 31] == 0x55u8,
        frame_bytes(v)[32 * ly + 30] % 16 == 5,
{
    let n31 = 32 * ly + 31;
    assert(0 <= n31 < 8000 && n31 / 32 == ly && n31 % 32 == 31) by (nonlinear_arith)
        requires
            n31 == 32 * ly + 31,
            0 <= ly < 250,
    ;
    let n30 = 32 * ly + 30;
    assert(0 <= n30 < 8000 && n30 / 32 == ly && n30 % 32 == 30) by (nonlinear_arith)
        requires
            n30 == 32 * ly + 30,
            0 <= ly < 250,
    ;
    assert(frame_bytes(v)[n31] == frame_byte(v, ly, 31));
    assert(frame_bytes(v)[n30] == frame_byte(v, ly, 30));
    let c0 = wire_code(v, 120, ly);
    let c1 = wire_code(v, 121, ly);
    assert(frame_byte(v, ly, 30) == (c0 * 64 + c1 * 16 + 5) as u8);
    assert(((c0 * 64 + c1 * 16 + 5) as u8) % 16 == 5) by (nonlinear_arith)
        requires
            c0 < 4,
            c1 < 4,
    ;
}

/// The JD79661 driver. It owns the chip-select, busy, data/command and
/// reset lines; the SPI port is borrowed per call.
pub struct Jd79661<CS, BUSY, DC, RST> {
    cs: CS,
    busy: BUSY,
    dc: DC,
    _rst: RST,
}

impl<CS: OutPin, BUSY: InPin, DC: OutPin, RST: OutPin> Jd79661<CS, BUSY, DC, RST> {
    /// Chip select is released (high), as every completed transfer leaves it.
    pub closed spec fn cs_released(&self) -> bool {
        self.cs.high()
    }

    /// Polls the busy line every millisecond until it reads high.
    /// There is deliberately no timeout: an unresponsive panel blocks the
    /// caller for as long as its `InPin` keeps reading low.
    fn wait_busy<DELAY: DelayMs>(&mut self, delay: &mut DELAY)
        ensures
            final(self).cs == old(self).cs,
            final(self).dc == old(self).dc,
            final(self)._rst == old(self)._rst,
    {
        loop
            invariant
                self.cs == old(self).cs,
                self.dc == old(self).dc,
                self._rst == old(self)._rst,
            decreases self.busy.low_budget(),
        {
            let still_busy = self.busy.is_low();
            if !still_busy {
                break;
            }
            delay.delay_ms(1);
        }
    }

    /// Sends one controller command: the opcode with the data/command line
    /// low, then the payload, if any, with the line high; chip select is
    /// asserted around each of the two phases separately.
    fn command<SPI: SpiWrite>(&mut self, spi: &mut SPI, cmd: u8, data: &[u8]) -> (r: Result<
        (),
        SPI::Error,
    >)
        ensures
            r is Ok ==> final(spi).written() == old(spi).written() + seq![cmd] + data@,
            r is Ok ==> final(self).cs_released(),
    {
        self.dc.set_low();
        self.cs.set_low();
        let op: [u8; 1] = [cmd];
        let res = spi.write(op.as_slice());
        if let Err(e) = res {
            return Err(e);
        }
        self.cs.set_high();

        if data.len() > 0 {
            self.dc.set_high();
            self.cs.set_low();
            let res2 = spi.write(data);
            if let Err(e) = res2 {
                return Err(e);
            }
            self.cs.set_high();
        }
        proof {
            assert(spi.written() =~= old(spi).written() + seq![cmd] + data@);
        }
        Ok(())
    }

    /// Builds a driver by running the controller's power-up procedure:
    /// a reset pulse, the software reset, the vendor's literal
    /// configuration table, and power-on, busy-waiting where the datasheet
    /// demands it. A transfer error aborts construction and is returned;
    /// no driver exists then.
    pub fn new<SPI: SpiWrite, DELAY: DelayMs>(
        spi: &mut SPI,
        cs: CS,
        busy: BUSY,
        dc: DC,
        rst: RST,
        delay: &mut DELAY,
    ) -> (r: Result<Self, SPI::Error>)
        ensures
            r is Ok ==> final(spi).written() == old(spi).written() + init_sequence(),
            r matches Ok(d) ==> d.cs_released(),
    {
        let mut rst = rst;
        rst.set_low();
        delay.delay_ms(10);
        rst.set_high();
        delay.delay_ms(10);

        let mut driver = Jd79661 { cs, busy, dc, _rst: rst };

        driver.wait_busy(delay);
        driver.command(spi, 0x01, &[])?;
        driver.wait_busy(delay);

        driver.command(spi, 0x4D, &[0x78])?;
        driver.command(spi, 0x00, &[0x8F, 0x29])?;
        driver.command(spi, 0x01, &[0x07, 0x00])?;
        driver.command(spi, 0x03, &[0x10, 0x54, 0x44])?;
        driver.command(spi, 0x06, &[0x05, 0x00, 0x3F, 0x0A, 0x25, 0x12, 0x1A])?;
        driver.command(spi, 0x50, &[0x37])?;
        driver.command(spi, 0x60, &[0x02, 0x02, 0x02])?;
        driver.command(spi, 0x61, &[0x00, 0x80, 0x00, 0xFA])?;
        driver.command(spi, 0xE7, &[0x1C])?;
        driver.command(spi, 0xE3, &[0x22])?;
        driver.command(spi, 0xB4, &[0xD0])?;
        driver.command(spi, 0xB5, &[0x03])?;
        driver.command(spi, 0xE9, &[0x01])?;
        driver.command(spi, 0x30, &[0x08])?;
        driver.command(spi, 0x04, &[])?;
        driver.wait_busy(delay);

        proof {
            assert(spi.written() =~= old(spi).written() + init_sequence());
        }
        Ok(driver)
    }

    /// Transmits a full frame: the start-of-data opcode 0x10, then the
    /// 8000 bytes of [`frame_bytes`], with the data/command line high and
    /// chip select asserted for the whole bulk transfer. A transfer error
    /// is returned as soon as it occurs.
    pub fn update_frames<SPI: SpiWrite>(
        &mut self,
        spi: &mut SPI,
        display: &DisplayBuffer,
    ) -> (r: Result<(), SPI::Error>)
        requires
            display.wf(),
        ensures
            r is Ok ==> final(spi).written() == old(spi).written() + seq![0x10u8] + frame_bytes(
                display@,
            ),
            r is Ok ==> final(self).cs_released(),
    {
        let res = self.command(spi, 0x10, &[]);
        if let Err(e) = res {
            return Err(e);
        }
        let ghost base: Seq<u8> = spi.written();
        proof {
            assert(base =~= old(spi).written() + seq![0x10u8]);
        }

        self.dc.set_high();
        self.cs.set_low();

        let mut ly: usize = 0;
        while ly < 250
            invariant
                ly <= 250,
                display.wf(),
                spi.written() == base + frame_bytes(display@).take(32 * ly),
            decreases 250 - ly,
        {
            let mut g: usize = 0;
            while g < 32
                invariant
                    ly < 250,
                    g <= 32,
                    display.wf(),
                    spi.written() == base + frame_bytes(display@).take(32 * ly + g),
                decreases 32 - g,
            {
                let c0 = pixel_code(display, 4 * g, ly);
                let c1 = pixel_code(display, 4 * g + 1, ly);
                let c2 = pixel_code(display, 4 * g + 2, ly);
                let c3 = pixel_code(display, 4 * g + 3, ly);
                let byte: u8 = (c0 << 6) | (c1 << 4) | (c2 << 2) | c3;
                proof {
                    assert(byte == c0 * 64 + c1 * 16 + c2 * 4 + c3) by (bit_vector)
                        requires
                            byte == (c0 << 6) | (c1 << 4) | (c2 << 2) | c3,
                            c0 < 4,
                            c1 < 4,
                            c2 < 4,
                            c3 < 4,
                    ;
                    assert(byte == frame_byte(display@, ly as int, g as int));
                }
                let chunk: [u8; 1] = [byte];
                let res2 = spi.write(chunk.as_slice());
                if let Err(e) = res2 {
                    return Err(e);
                }
                proof {
                    let n: int = 32 * (ly as int) + g as int;
                    assert(n / 32 == ly as int && n % 32 == g as int) by (nonlinear_arith)
                        requires
                            n == 32 * (ly as int) + g as int,
                            0 <= g < 32,
                            0 <= ly,
                    ;
                    assert(frame_bytes(display@)[n] == frame_byte(
                        display@,
                        ly as int,
                        g as int,
                    ));
                    assert(spi.written() =~= base + frame_bytes(display@).take(n + 1));
                }
                g = g + 1;
            }
            ly = ly + 1;
        }
        proof {
            assert(frame_bytes(display@).take(8000) =~= frame_bytes(display@));
        }
        self.cs.set_high();
        Ok(())
    }

    /// Triggers a panel refresh (opcode 0x12) and blocks until the panel
    /// reports that it is no longer busy.
    pub fn display_frame<SPI: SpiWrite, DELAY: DelayMs>(
        &mut self,
        spi: &mut SPI,
        delay: &mut DELAY,
    ) -> (r: Result<(), SPI::Error>)
        ensures
            r is Ok ==> final(spi).written() == old(spi).written() + seq![0x12u8],
            r is Ok ==> final(self).cs_released(),
    {
        let res = self.command(spi, 0x12, &[]);
        if let Err(e) = res {
            return Err(e);
        }
        self.wait_busy(delay);
        proof {
            assert(spi.written() =~= old(spi).written() + seq![0x12u8]);
        }
        Ok(())
    }
}

} // verus!
