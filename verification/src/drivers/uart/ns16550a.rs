//! UART driver for NS16550a.
//!
//! The device has eight registers of one byte each:
//!
//! | offset | register                      |
//! |--------|-------------------------------|
//! | 0x00   | RBR (read) / THR (write)      |
//! | 0x01   | IER                           |
//! | 0x02   | IIR (read) / FCR (write)      |
//! | 0x03   | LCR                           |
//! | 0x04   | MCR                           |
//! | 0x05   | LSR                           |
//! | 0x06   | MSR                           |
//! | 0x07   | SCR                           |

use vstd::prelude::*;
use crate::drivers::uart::{StopBits, Uart};
use crate::io::{lemma_written_push, written, Access, Io, Recorded};

verus! {

/// FIFO control: enables the FIFOs.
pub const FIFO_ENABLE: u8 = 0x01;

/// Line control: first bit of the word length.
pub const WORD_LENGTH_SELECT0: u8 = 0x01;

/// Line control: second bit of the word length.
pub const WORD_LENGTH_SELECT1: u8 = 0x02;

/// Line control for words of eight bits: both bits of the word length.
pub const WORD_LENGTH_EIGHT: u8 = 0x03;

/// The registers of an NS16550a.
pub struct UartNs16550a<R: Io<Value = u8>> {
    // data buffers
    rbr_thr: Recorded<R>,
    // interrupt enable
    ier: Recorded<R>,
    // interrupt identification / FIFO control
    iir_fcr: Recorded<R>,
    // line control
    lcr: Recorded<R>,
    // modem control
    mcr: Recorded<R>,
    // line status
    lsr: Recorded<R>,
    // modem status
    msr: Recorded<R>,
    // scratch register
    scr: Recorded<R>,
}

/// The accesses that a driver has made to each register of an NS16550a, the
/// oldest first.
pub struct Ns16550aTrace {
    /// Receive buffer and transmit holding register.
    pub rbr_thr: Seq<Access<u8>>,
    /// Interrupt enable.
    pub ier: Seq<Access<u8>>,
    /// Interrupt identification and FIFO control.
    pub iir_fcr: Seq<Access<u8>>,
    /// Line control.
    pub lcr: Seq<Access<u8>>,
    /// Modem control.
    pub mcr: Seq<Access<u8>>,
    /// Line status.
    pub lsr: Seq<Access<u8>>,
    /// Modem status.
    pub msr: Seq<Access<u8>>,
    /// Scratch register.
    pub scr: Seq<Access<u8>>,
}

impl Ns16550aTrace {
    /// The trace of a driver that has made no access.
    pub open spec fn none() -> Ns16550aTrace {
        Ns16550aTrace {
            rbr_thr: Seq::empty(),
            ier: Seq::empty(),
            iir_fcr: Seq::empty(),
            lcr: Seq::empty(),
            mcr: Seq::empty(),
            lsr: Seq::empty(),
            msr: Seq::empty(),
            scr: Seq::empty(),
        }
    }
}

impl<R: Io<Value = u8>> View for UartNs16550a<R> {
    type V = Ns16550aTrace;

    closed spec fn view(&self) -> Ns16550aTrace {
        Ns16550aTrace {
            rbr_thr: self.rbr_thr.history(),
            ier: self.ier.history(),
            iir_fcr: self.iir_fcr.history(),
            lcr: self.lcr.history(),
            mcr: self.mcr.history(),
            lsr: self.lsr.history(),
            msr: self.msr.history(),
            scr: self.scr.history(),
        }
    }
}

impl<R: Io<Value = u8>> UartNs16550a<R> {
    /// Puts the driver on the eight registers of a device, in the order of
    /// their offsets. The driver has made no access yet.
    pub fn new(rbr_thr: R, ier: R, iir_fcr: R, lcr: R, mcr: R, lsr: R, msr: R, scr: R) -> (uart:
        Self)
        ensures
            uart@ == Ns16550aTrace::none(),
    {
        UartNs16550a {
            rbr_thr: Recorded::new(rbr_thr),
            ier: Recorded::new(ier),
            iir_fcr: Recorded::new(iir_fcr),
            lcr: Recorded::new(lcr),
            mcr: Recorded::new(mcr),
            lsr: Recorded::new(lsr),
            msr: Recorded::new(msr),
            scr: Recorded::new(scr),
        }
    }

    /// Sets the word length. Words of eight bits are the only ones on
    /// offer: line control gets both bits of the word length, whatever
    /// `_length` is.
    pub fn set_word_length(&mut self, _length: usize)
        ensures
            final(self)@ == (Ns16550aTrace {
                lcr: old(self)@.lcr.push(Access::Write(WORD_LENGTH_EIGHT)),
                ..old(self)@
            }),
    {
        let lcr = WORD_LENGTH_SELECT0 | WORD_LENGTH_SELECT1;
        assert(0x01u8 | 0x02u8 == 0x03u8) by (bit_vector);
        self.lcr.write(lcr);
    }

    /// Enables the FIFOs: FIFO control gets the enable bit.
    pub fn fifo_enable(&mut self)
        ensures
            final(self)@ == (Ns16550aTrace {
                iir_fcr: old(self)@.iir_fcr.push(Access::Write(FIFO_ENABLE)),
                ..old(self)@
            }),
    {
        let fcr = FIFO_ENABLE;
        self.iir_fcr.write(fcr);
    }
}

impl<R: Io<Value = u8>> Uart for UartNs16550a<R> {
    /// What has been written to the transmit holding register.
    open spec fn sent(&self) -> Seq<u8> {
        written(self@.rbr_thr)
    }

    /// Sets words of eight bits and enables the FIFOs. The number of stop
    /// bits is left as the device has it.
    fn init(&mut self, stop_bits: StopBits)
        ensures
            final(self)@ == (Ns16550aTrace {
                lcr: old(self)@.lcr.push(Access::Write(WORD_LENGTH_EIGHT)),
                iir_fcr: old(self)@.iir_fcr.push(Access::Write(FIFO_ENABLE)),
                ..old(self)@
            }),
    {
        self.set_word_length(8);

        // enable rx & tx
        self.fifo_enable();
    }

    /// Hands `data` to the transmit holding register.
    fn send(&mut self, data: u8)
        ensures
            final(self)@ == (Ns16550aTrace {
                rbr_thr: old(self)@.rbr_thr.push(Access::Write(data)),
                ..old(self)@
            }),
    {
        self.rbr_thr.write(data);
        proof {
            lemma_written_push(old(self)@.rbr_thr, Access::Write(data));
        }
    }
}

} // verus!
