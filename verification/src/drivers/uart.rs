//! Serial ports.

use vstd::prelude::*;
use vstd::string::StringSliceAdditionalSpecFns;

pub mod fu740_c000;
pub mod ns16550a;

verus! {

/// Number of stop bits that close a character on the line.
#[derive(Clone, Copy, Debug, PartialEq, Eq, Structural)]
pub enum StopBits {
    /// One stop bit.
    OneStopBit,
    /// Two stop bits.
    TwoStopBits,
}

/// Hardware independent UART interface.
pub trait Uart {
    /// The bytes handed to the device for sending so far, the oldest first.
    spec fn sent(&self) -> Seq<u8>;

    /// Initializes the UART device. Nothing is sent.
    fn init(&mut self, stop_bits: StopBits)
        ensures
            final(self).sent() == old(self).sent(),
    ;

    /// Sends a byte over UART.
    ///
    /// A call returns once the byte has been handed to the device.
    fn send(&mut self, data: u8)
        ensures
            final(self).sent() == old(self).sent().push(data),
    ;

    /// Sends a string over UART: its bytes, in their order.
    fn write(&mut self, string: &str)
        ensures
            final(self).sent() == old(self).sent() + string.spec_bytes(),
    {
        let bytes = string.as_bytes();
        let mut index: usize = 0;
        while index < bytes.len()
            invariant
                index <= bytes.len(),
                bytes@ == string.spec_bytes(),
                self.sent() == old(self).sent() + bytes@.take(index as int),
            decreases bytes.len() - index,
        {
            self.send(bytes[index]);
            assert(bytes@.take(index + 1) =~= bytes@.take(index as int).push(bytes@[index as int]));
            assert(old(self).sent() + bytes@.take(index + 1) =~= (old(self).sent() + bytes@.take(
                index as int,
            )).push(bytes@[index as int]));
            index += 1;
        }
        assert(bytes@.take(bytes.len() as int) =~= bytes@);
    }
}

} // verus!
