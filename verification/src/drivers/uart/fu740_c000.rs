//! UART driver for HiFive Freedom Unmatched (FU740-C000).
//!
//! The device has seven registers of one word each:
//!
//! | offset | register | bits                                              |
//! |--------|----------|---------------------------------------------------|
//! | 0x00   | txdata   | `0x0000_00ff` data, `0x8000_0000` FIFO full       |
//! | 0x04   | rxdata   | `0x0000_00ff` data, `0x8000_0000` FIFO empty      |
//! | 0x08   | txctrl   | enable, stop bits, watermark level                |
//! | 0x0c   | rxctrl   | enable, watermark level                           |
//! | 0x10   | ie       | interrupt enable                                  |
//! | 0x14   | ip       | pending interrupts                                |
//! | 0x18   | div      | baud rate divisor                                 |

use vstd::prelude::*;
use crate::io::{Access, Io, ReadOnly, Recorded};

verus! {

/// Data registers: the byte received or to send.
pub const DATA: u32 = 0x0000_00FF;

/// Data registers: the transmit FIFO is full, or the receive FIFO is empty.
pub const FIFO_FULL_OR_EMPTY: u32 = 0x8000_0000;

/// Data registers: all bits that have a meaning.
pub const DATA_FLAGS: u32 = 0x8000_00FF;

/// Control registers: the channel is enabled.
pub const ENABLED: u32 = 0x0000_0001;

/// Transmit control: two stop bits.
pub const TWO_STOP_BITS: u32 = 0x0000_0002;

/// Control registers: the watermark level.
pub const WATERMARK_LEVEL: u32 = 0x0000_0700;

/// Transmit control: all bits that have a meaning.
pub const TX_CTRL_FLAGS: u32 = 0x0000_0703;

/// Receive control: all bits that have a meaning.
pub const RX_CTRL_FLAGS: u32 = 0x0000_0701;

/// Interrupt registers: the transmit watermark.
pub const TX_WATERMARK: u32 = 0x0000_0001;

/// Interrupt registers: the receive watermark.
pub const RX_WATERMARK: u32 = 0x0000_0002;

/// Interrupt registers: all bits that have a meaning.
pub const INTERRUPT_FLAGS: u32 = 0x0000_0003;

/// Address of the registers of the first UART.
pub const UART0_BASE: usize = 0x1001_0000;

/// Address of the registers of the second UART.
pub const UART1_BASE: usize = 0x1001_1000;

/// Number of stop bits that close a character on the line.
#[derive(Clone, Copy, Debug, PartialEq, Eq, Structural)]
pub enum StopBits {
    /// One stop bit.
    OneStopBit,
    /// Two stop bits.
    TwoStopBits,
}

/// The registers of a UART of the FU740-C000.
pub struct UART<R: Io<Value = u32>> {
    txdata: Recorded<R>,
    rxdata: ReadOnly<R>,
    txctrl: Recorded<R>,
    rxctrl: Recorded<R>,
    // interrupt enable
    ie: Recorded<R>,
    // pending interrupts
    ip: ReadOnly<R>,
    // baud rate divisor
    div: Recorded<R>,
}

/// The accesses that a driver has made to each register of a UART that can
/// be written, the oldest first.
pub struct UartTrace {
    /// Transmit data.
    pub txdata: Seq<Access<u32>>,
    /// Transmit control.
    pub txctrl: Seq<Access<u32>>,
    /// Receive control.
    pub rxctrl: Seq<Access<u32>>,
    /// Interrupt enable.
    pub ie: Seq<Access<u32>>,
    /// Baud rate divisor.
    pub div: Seq<Access<u32>>,
}

impl UartTrace {
    /// The trace of a driver that has made no access.
    pub open spec fn none() -> UartTrace {
        UartTrace {
            txdata: Seq::empty(),
            txctrl: Seq::empty(),
            rxctrl: Seq::empty(),
            ie: Seq::empty(),
            div: Seq::empty(),
        }
    }
}

/// The byte that a word of a data register holds, if it holds one.
pub open spec fn spec_received(word: u32) -> Option<u8> {
    if word & FIFO_FULL_OR_EMPTY == FIFO_FULL_OR_EMPTY {
        None
    } else {
        Some((word & DATA) as u8)
    }
}

/// Transmit control with the channel enabled and the stop bits set, as it
/// follows from the word `current`.
pub open spec fn spec_tx_control(current: u32, stop_bits: StopBits) -> u32 {
    let enabled = (current & TX_CTRL_FLAGS) | ENABLED;
    if stop_bits == StopBits::TwoStopBits {
        enabled | TWO_STOP_BITS
    } else {
        enabled & !TWO_STOP_BITS
    }
}

/// Receive control with the channel enabled, as it follows from the word
/// `current`.
pub open spec fn spec_rx_control(current: u32) -> u32 {
    (current & RX_CTRL_FLAGS) | ENABLED
}

/// The control word `current`, cut down to the bits in `flags`, with its
/// watermark level replaced by `watermark`.
pub open spec fn spec_watermark_control(current: u32, flags: u32, watermark: u32) -> u32 {
    ((current & flags) & !WATERMARK_LEVEL) | ((watermark << 8) & WATERMARK_LEVEL)
}

/// Interrupt enable with the interrupt `flag` switched on or off, as it
/// follows from the word `current`.
pub open spec fn spec_interrupt_enable(current: u32, flag: u32, on: bool) -> u32 {
    if on {
        (current & INTERRUPT_FLAGS) | flag
    } else {
        (current & INTERRUPT_FLAGS) & !flag
    }
}

/// The trace after `receive`, where transmit data read as `seen`.
pub open spec fn received_from(before: UartTrace, seen: u32) -> UartTrace {
    UartTrace { txdata: before.txdata.push(Access::Read(seen)), ..before }
}

/// The trace after `tx_enable`, where transmit control read as `seen`.
pub open spec fn tx_enabled(before: UartTrace, stop_bits: StopBits, seen: u32) -> UartTrace {
    UartTrace {
        txctrl: before.txctrl.push(Access::Read(seen)).push(
            Access::Write(spec_tx_control(seen, stop_bits)),
        ),
        ..before
    }
}

/// The trace after `rx_enable`, where receive control read as `seen`: the
/// new word goes to transmit control.
pub open spec fn rx_enabled(before: UartTrace, seen: u32) -> UartTrace {
    UartTrace {
        rxctrl: before.rxctrl.push(Access::Read(seen)),
        txctrl: before.txctrl.push(Access::Write(spec_rx_control(seen))),
        ..before
    }
}

/// The trace of a control register after its watermark is set, where the
/// register read as `seen`. Without a level the register is left alone.
pub open spec fn watermark_set(
    before: Seq<Access<u32>>,
    flags: u32,
    watermark: Option<u32>,
    seen: u32,
) -> Seq<Access<u32>> {
    match watermark {
        Some(level) => before.push(Access::Read(seen)).push(
            Access::Write(spec_watermark_control(seen, flags, level)),
        ),
        None => before,
    }
}

/// The trace of interrupt enable after the interrupt `flag` is switched,
/// where the register read as `seen`.
pub open spec fn interrupt_switched(before: Seq<Access<u32>>, flag: u32, on: bool, seen: u32) -> Seq<
    Access<u32>,
> {
    before.push(Access::Read(seen)).push(Access::Write(spec_interrupt_enable(seen, flag, on)))
}

/// The trace after `set_tx_watermark`, where transmit control read as
/// `control` and interrupt enable as `enable`.
pub open spec fn tx_watermark_set(
    before: UartTrace,
    watermark: Option<u32>,
    control: u32,
    enable: u32,
) -> UartTrace {
    UartTrace {
        txctrl: watermark_set(before.txctrl, TX_CTRL_FLAGS, watermark, control),
        ie: interrupt_switched(before.ie, TX_WATERMARK, watermark is Some, enable),
        ..before
    }
}

/// The trace after `set_rx_watermark`, where receive control read as
/// `control` and interrupt enable as `enable`.
pub open spec fn rx_watermark_set(
    before: UartTrace,
    watermark: Option<u32>,
    control: u32,
    enable: u32,
) -> UartTrace {
    UartTrace {
        rxctrl: watermark_set(before.rxctrl, RX_CTRL_FLAGS, watermark, control),
        ie: interrupt_switched(before.ie, RX_WATERMARK, watermark is Some, enable),
        ..before
    }
}

/// Address of the registers of UART `instance`. The chip has two.
pub fn base_address(instance: usize) -> (base: Option<usize>)
    ensures
        base == if instance == 0 {
            Some(UART0_BASE)
        } else if instance == 1 {
            Some(UART1_BASE)
        } else {
            None
        },
{
    if instance == 0 {
        Some(UART0_BASE)
    } else if instance == 1 {
        Some(UART1_BASE)
    } else {
        None
    }
}

/// Decodes a word of a data register: the byte in it, or `None` where the
/// word says that the FIFO has none.
pub fn received(word: u32) -> (data: Option<u8>)
    ensures
        data == spec_received(word),
        data is None <==> word & FIFO_FULL_OR_EMPTY != 0,
{
    let raw_data = word & DATA_FLAGS;
    assert(((word & 0x8000_00FFu32) & 0x8000_0000u32 == 0x8000_0000u32) == (word & 0x8000_0000u32
        == 0x8000_0000u32) && (word & 0x8000_0000u32 != 0x8000_0000u32 ==> (word & 0x8000_00FFu32)
        == word & 0x0000_00FFu32) && (word & 0x0000_00FFu32) < 256 && ((word & 0x8000_0000u32
        != 0) == (word & 0x8000_0000u32 == 0x8000_0000u32))) by (bit_vector);
    if raw_data & FIFO_FULL_OR_EMPTY == FIFO_FULL_OR_EMPTY {
        None
    } else {
        Some(raw_data as u8)
    }
}

/// Works out transmit control from its present word: the channel is
/// enabled, the stop bits are set as asked, the watermark level stays, and
/// all other bits are zero.
pub fn tx_control(current: u32, stop_bits: StopBits) -> (word: u32)
    ensures
        word == spec_tx_control(current, stop_bits),
        word & ENABLED == ENABLED,
        (word & TWO_STOP_BITS == TWO_STOP_BITS) == (stop_bits == StopBits::TwoStopBits),
        word & WATERMARK_LEVEL == current & WATERMARK_LEVEL,
        word & !TX_CTRL_FLAGS == 0,
{
    let flags = (current & TX_CTRL_FLAGS) | ENABLED;
    assert({
        let enabled = (current & 0x703u32) | 1u32;
        let two = enabled | 2u32;
        let one = enabled & !2u32;
        &&& two & 1u32 == 1u32
        &&& one & 1u32 == 1u32
        &&& two & 2u32 == 2u32
        &&& one & 2u32 != 2u32
        &&& two & 0x700u32 == current & 0x700u32
        &&& one & 0x700u32 == current & 0x700u32
        &&& two & !0x703u32 == 0u32
        &&& one & !0x703u32 == 0u32
    }) by (bit_vector);
    if stop_bits == StopBits::TwoStopBits {
        flags | TWO_STOP_BITS
    } else {
        flags & !TWO_STOP_BITS
    }
}

/// Works out receive control from its present word: the channel is enabled,
/// the watermark level stays, and all other bits are zero.
pub fn rx_control(current: u32) -> (word: u32)
    ensures
        word == spec_rx_control(current),
        word & ENABLED == ENABLED,
        word & WATERMARK_LEVEL == current & WATERMARK_LEVEL,
        word & !RX_CTRL_FLAGS == 0,
{
    assert({
        let enabled = (current & 0x701u32) | 1u32;
        &&& enabled & 1u32 == 1u32
        &&& enabled & 0x700u32 == current & 0x700u32
        &&& enabled & !0x701u32 == 0u32
    }) by (bit_vector);
    (current & RX_CTRL_FLAGS) | ENABLED
}

/// Works out a control word with a new watermark level: the level is the
/// low three bits of `watermark`, the other bits in `flags` stay, and all
/// bits outside `flags` are zero.
pub fn watermark_control(current: u32, flags: u32, watermark: u32) -> (word: u32)
    ensures
        word == spec_watermark_control(current, flags, watermark),
        (word & WATERMARK_LEVEL) >> 8 == watermark & 0x7,
        word & !WATERMARK_LEVEL == current & flags & !WATERMARK_LEVEL,
{
    let level = (watermark << 8) & WATERMARK_LEVEL;
    let kept = (current & flags) & !WATERMARK_LEVEL;
    assert({
        let level = (watermark << 8) & 0x700u32;
        let kept = (current & flags) & !0x700u32;
        &&& ((kept | level) & 0x700u32) >> 8 == watermark & 0x7u32
        &&& (kept | level) & !0x700u32 == current & flags & !0x700u32
    }) by (bit_vector);
    kept | level
}

/// Works out interrupt enable from its present word: for one of the two
/// interrupts as `flag`, that interrupt is switched on or off, the other
/// stays, and all other bits are zero.
pub fn interrupt_enable(current: u32, flag: u32, on: bool) -> (word: u32)
    ensures
        word == spec_interrupt_enable(current, flag, on),
        flag == TX_WATERMARK || flag == RX_WATERMARK ==> {
            &&& (word & flag == flag) == on
            &&& word & (INTERRUPT_FLAGS & !flag) == current & (INTERRUPT_FLAGS & !flag)
            &&& word & !INTERRUPT_FLAGS == 0
        },
{
    assert({
        let known = current & 0x3u32;
        let set = known | flag;
        let cleared = known & !flag;
        (flag == 1u32 || flag == 2u32) ==> {
            &&& set & flag == flag
            &&& cleared & flag != flag
            &&& set & (0x3u32 & !flag) == current & (0x3u32 & !flag)
            &&& cleared & (0x3u32 & !flag) == current & (0x3u32 & !flag)
            &&& set & !0x3u32 == 0u32
            &&& cleared & !0x3u32 == 0u32
        }
    }) by (bit_vector);
    let flags = current & INTERRUPT_FLAGS;
    if on {
        flags | flag
    } else {
        flags & !flag
    }
}

impl<R: Io<Value = u32>> View for UART<R> {
    type V = UartTrace;

    closed spec fn view(&self) -> UartTrace {
        UartTrace {
            txdata: self.txdata.history(),
            txctrl: self.txctrl.history(),
            rxctrl: self.rxctrl.history(),
            ie: self.ie.history(),
            div: self.div.history(),
        }
    }
}

impl<R: Io<Value = u32>> UART<R> {
    /// Puts the driver on the seven registers of a device, in the order of
    /// their offsets. The driver has made no access yet.
    pub fn new(txdata: R, rxdata: R, txctrl: R, rxctrl: R, ie: R, ip: R, div: R) -> (uart: Self)
        ensures
            uart@ == UartTrace::none(),
    {
        UART {
            txdata: Recorded::new(txdata),
            rxdata: ReadOnly::new(rxdata),
            txctrl: Recorded::new(txctrl),
            rxctrl: Recorded::new(rxctrl),
            ie: Recorded::new(ie),
            ip: ReadOnly::new(ip),
            div: Recorded::new(div),
        }
    }

    /// Takes a byte from the device, if the data register holds one.
    ///
    /// The word is read from the transmit data register and decoded by
    /// [`received`]. Nothing is written.
    pub fn receive(&mut self) -> (data: Option<u8>)
        ensures
            exists|seen: u32|
                final(self)@ == #[trigger] received_from(old(self)@, seen) && data
                    == spec_received(seen),
    {
        let seen = self.txdata.read();
        assert(self@ == received_from(old(self)@, seen));
        received(seen)
    }

    /// Enables the transmit channel with the given number of stop bits.
    ///
    /// Transmit control is read, and written back as [`tx_control`] makes
    /// it.
    pub fn tx_enable(&mut self, stop_bits: StopBits)
        ensures
            exists|seen: u32| final(self)@ == #[trigger] tx_enabled(old(self)@, stop_bits, seen),
    {
        let seen = self.txctrl.read();
        self.txctrl.write(tx_control(seen, stop_bits));
        assert(self@ == tx_enabled(old(self)@, stop_bits, seen));
    }

    /// Enables the receive channel.
    ///
    /// Receive control is read, and the word that [`rx_control`] makes of it
    /// is written to transmit control.
    pub fn rx_enable(&mut self)
        ensures
            exists|seen: u32| final(self)@ == #[trigger] rx_enabled(old(self)@, seen),
    {
        let seen = self.rxctrl.read();
        self.txctrl.write(rx_control(seen));
        assert(self@ == rx_enabled(old(self)@, seen));
    }

    /// Sets the transmit watermark, or switches its interrupt off.
    ///
    /// With a level, transmit control is read and written back with the
    /// level in it, as [`watermark_control`] makes it. Then interrupt enable
    /// is read and written back as [`interrupt_enable`] makes it: with the
    /// transmit watermark on where a level was given, and off where not.
    pub fn set_tx_watermark(&mut self, watermark: Option<u32>)
        ensures
            exists|control: u32, enable: u32|
                final(self)@ == #[trigger] tx_watermark_set(
                    old(self)@,
                    watermark,
                    control,
                    enable,
                ),
    {
        let mut control: u32 = 0;
        if let Some(level) = watermark {
            control = self.txctrl.read();
            self.txctrl.write(watermark_control(control, TX_CTRL_FLAGS, level));
        }
        let enable = self.ie.read();
        self.ie.write(interrupt_enable(enable, TX_WATERMARK, watermark.is_some()));
        assert(self@ == tx_watermark_set(old(self)@, watermark, control, enable));
    }

    /// Sets the receive watermark, or switches its interrupt off.
    ///
    /// With a level, receive control is read and written back with the level
    /// in it, as [`watermark_control`] makes it. Then interrupt enable is
    /// read and written back as [`interrupt_enable`] makes it: with the
    /// receive watermark on where a level was given, and off where not.
    pub fn set_rx_watermark(&mut self, watermark: Option<u32>)
        ensures
            exists|control: u32, enable: u32|
                final(self)@ == #[trigger] rx_watermark_set(
                    old(self)@,
                    watermark,
                    control,
                    enable,
                ),
    {
        let mut control: u32 = 0;
        if let Some(level) = watermark {
            control = self.rxctrl.read();
            self.rxctrl.write(watermark_control(control, RX_CTRL_FLAGS, level));
        }
        let enable = self.ie.read();
        self.ie.write(interrupt_enable(enable, RX_WATERMARK, watermark.is_some()));
        assert(self@ == rx_watermark_set(old(self)@, watermark, control, enable));
    }
}

} // verus!
