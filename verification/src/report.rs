//! The acquisition and report cycle.
//!
//! Each cycle takes the outcome of one bus transaction, decodes the
//! reply, renders the report line, and says what the firmware must do
//! next: transmit the line, or halt on the fatal errors — a failed bus
//! transaction, or a rendering that would not fit the line buffer.

use vstd::prelude::*;

use crate::line::{clear_line, line_as_bytes, new_report_line, push_byte, report_bytes};
use crate::sample::{decode_raw_sample, raw_sample_spec, Temperature};
use crate::text::{lemma_line_text_ascii, line_text, line_text_exec};

verus! {

/// The sensor's fixed 7-bit bus address.
pub const TMP102_ADDRESS: u8 = 0x48;

/// The sensor register holding the temperature reading.
pub const TEMPERATURE_REGISTER: u8 = 0x00;

/// Why a bus transaction failed. The firmware maps the bus driver's
/// error onto this; every variant is fatal to the cycle.
#[derive(Clone, Copy, PartialEq, Eq, Structural, Debug)]
pub enum BusError {
    /// The target did not acknowledge.
    Nack,
    /// The bus was arbitrated away.
    ArbitrationLoss,
    /// The transaction timed out.
    Timeout,
    /// Any other hardware failure.
    Other,
}

/// The fatal outcomes of one cycle.
#[derive(Clone, Copy, PartialEq, Eq, Structural, Debug)]
pub enum ReportError {
    /// The bus transaction failed.
    Bus(BusError),
    /// The rendered text would not fit the report line.
    FormatOverflow,
}

/// Render the report line for sample `t` into `line`, replacing
/// whatever it held. Fails with `FormatOverflow`, leaving the buffer
/// empty, exactly when the text is longer than the buffer's 26 bytes.
pub fn render_into(line: &mut heapless::String<26>, t: Temperature) -> (r: Result<
    (),
    ReportError,
>)
    requires
        t.wf(),
    ensures
        r is Ok <==> line_text(t.sixteenths as int).len() <= 26,
        r is Ok ==> report_bytes(*final(line)) == line_text(t.sixteenths as int),
        r is Err ==> r == Err::<(), ReportError>(ReportError::FormatOverflow) && report_bytes(
            *final(line),
        ) == Seq::<u8>::empty(),
{
    clear_line(line);
    let text = line_text_exec(t.sixteenths);
    if text.len() > 26 {
        return Err(ReportError::FormatOverflow);
    }
    proof {
        lemma_line_text_ascii(t.sixteenths as int);
    }
    let mut idx: usize = 0;
    while idx < text.len()
        invariant
            idx <= text.len(),
            text.len() <= 26,
            text@ == line_text(t.sixteenths as int),
            report_bytes(*line) == text@.take(idx as int),
            forall|i: int| 0 <= i < text@.len() ==> #[trigger] text@[i] < 128,
        decreases text.len() - idx,
    {
        let outcome = push_byte(line, text[idx]);
        proof {
            assert(outcome is Ok);
            assert(report_bytes(*line) =~= text@.take(idx + 1));
        }
        idx += 1;
    }
    proof {
        assert(text@.take(text@.len() as int) =~= text@);
    }
    Ok(())
}

/// The acquisition and report loop's state: the single report line,
/// owned by the loop and reused each cycle.
pub struct Reporter {
    /// The report line buffer.
    pub line: heapless::String<26>,
}

impl Reporter {
    /// A reporter with an empty report line, made once at start-up.
    pub fn new() -> (r: Reporter)
        ensures
            report_bytes(r.line) == Seq::<u8>::empty(),
    {
        Reporter { line: new_report_line() }
    }

    /// Decide one cycle from the outcome of the bus transaction.
    ///
    /// A failed transaction halts the cycle at once: nothing is
    /// rendered, the line is left empty, and the bus error comes back.
    /// A two-byte reply is decoded and rendered; the rendered line is
    /// then ready to transmit, or `FormatOverflow` is fatal exactly
    /// when the text would not fit the buffer.
    pub fn cycle(&mut self, reply: Result<[u8; 2], BusError>) -> (r: Result<(), ReportError>)
        ensures
            (reply matches Err(e) ==> r == Err::<(), ReportError>(ReportError::Bus(e))
                && report_bytes(final(self).line) == Seq::<u8>::empty()),
            (reply matches Ok(b) ==> {
                let k = raw_sample_spec(b@[0], b@[1]);
                &&& (r is Ok <==> line_text(k).len() <= 26)
                &&& (r is Ok ==> report_bytes(final(self).line) == line_text(k))
                &&& (r is Err ==> r == Err::<(), ReportError>(ReportError::FormatOverflow)
                    && report_bytes(final(self).line) == Seq::<u8>::empty())
            }),
    {
        match reply {
            Err(e) => {
                clear_line(&mut self.line);
                Err(ReportError::Bus(e))
            },
            Ok(bytes) => {
                let t = decode_raw_sample(bytes);
                render_into(&mut self.line, t)
            },
        }
    }

    /// The bytes of the report line, ready to drain to the sink.
    pub fn line_bytes(&self) -> (r: &[u8])
        ensures
            r@ == report_bytes(self.line),
    {
        line_as_bytes(&self.line)
    }
}

} // verus!
