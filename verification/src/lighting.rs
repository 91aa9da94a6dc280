//! The lighting command: three reports that carry rate, brightness and the
//! colours of the chosen effect.

use vstd::prelude::*;
use crate::lighting_mode::LightingMode;
use crate::message::{Message, MessageBuilder, MessageBuilderError, Packing};
use crate::report::{Header, HeaderSpec, HEADER_FLAG, HEADER_MARK, REPORT_ID, REPORT_LEN};

verus! {

/// Operation code of the lighting command.
pub const OPERATION_ID: u8 = 0x02;

/// Number of reports in a lighting message.
pub const NUM_REPORTS: u8 = 3;

/// The five scalar bytes at the start of the payload. Rate and brightness
/// are sent twice.
pub open spec fn scalars(brightness: u8, rate: u8, mode: LightingMode) -> Seq<u8> {
    seq![rate, brightness, mode.spec_num_colours(), rate, brightness]
}

/// The colour whose bytes lie over payload byte `q` of report `j`, if the
/// layout has a colour there: the first report holds the scalars and one
/// colour, each later report three colours.
pub open spec fn colour_slot(j: int, q: int) -> Option<int> {
    if j == 0 {
        if 5 <= q < 8 {
            Some(0int)
        } else {
            None
        }
    } else if 0 <= q < 9 {
        Some(1 + 3 * (j - 1) + q / 3)
    } else {
        None
    }
}

/// Payload byte `q` of report `j` of a lighting message.
pub open spec fn payload_byte(brightness: u8, rate: u8, mode: LightingMode, j: int, q: int) -> u8 {
    let colours = mode.spec_colours();
    if j == 0 && 0 <= q < 5 {
        scalars(brightness, rate, mode)[q]
    } else {
        match colour_slot(j, q) {
            Some(k) => if k < colours.len() {
                colours[k].spec_bytes()[if j == 0 {
                    q - 5
                } else {
                    q % 3
                }]
            } else {
                0
            },
            None => 0,
        }
    }
}

/// Report `j` of a lighting message: the standard header, the mode
/// identifier, and ten payload bytes.
pub open spec fn lighting_report(brightness: u8, rate: u8, mode: LightingMode, j: int) -> Seq<u8> {
    Seq::new(
        REPORT_LEN as nat,
        |o: int|
            if o == 0 {
                REPORT_ID
            } else if o == 1 {
                OPERATION_ID
            } else if o == 2 {
                HEADER_MARK
            } else if o == 3 {
                j as u8
            } else if o == 4 {
                HEADER_FLAG
            } else if o == 5 {
                mode.spec_mode_id()
            } else {
                payload_byte(brightness, rate, mode, j, o - 6)
            },
    )
}

/// The three reports of a lighting message.
pub open spec fn lighting_reports(brightness: u8, rate: u8, mode: LightingMode) -> Seq<Seq<u8>> {
    Seq::new(NUM_REPORTS as nat, |j: int| lighting_report(brightness, rate, mode, j))
}

/// Payload bytes that report `j` holds once the scalars and the first `k`
/// colours are placed.
spec fn placed_len(j: int, k: int) -> int {
    if j == 0 {
        if k >= 1 {
            8
        } else {
            5
        }
    } else {
        let first = 1 + 3 * (j - 1);
        if k <= first {
            0
        } else if k >= first + 3 {
            9
        } else {
            3 * (k - first)
        }
    }
}

/// The report that the builder points to once `k` colours are placed.
spec fn placed_cursor(k: int) -> int {
    if k <= 1 {
        0
    } else if k <= 4 {
        1
    } else {
        2
    }
}

/// The builder state once the scalars and the first `k` colours are
/// placed.
spec fn placed(b: Packing, brightness: u8, rate: u8, mode: LightingMode, k: int) -> bool {
    &&& b.wf()
    &&& b.layout.operation == OPERATION_ID
    &&& b.layout.header == HeaderSpec::WithMode(mode.spec_mode_id())
    &&& b.layout.num_reports() == 3
    &&& b.layout.cursor == placed_cursor(k)
    &&& forall|j: int|
        0 <= j < 3 ==> (#[trigger] b.layout.payloads[j]).len() == placed_len(j, k)
    &&& forall|j: int, q: int|
        0 <= j < 3 && 0 <= q < placed_len(j, k) ==> #[trigger] b.layout.payloads[j][q]
            == payload_byte(brightness, rate, mode, j, q)
}

/// Encodes a lighting command: rate, brightness, the number of colours,
/// rate and brightness again, then one three-byte block per colour of the
/// mode.
pub fn lighting_message(brightness: u8, rate: u8, mode: LightingMode) -> (r: Result<
    Message,
    MessageBuilderError,
>)
    ensures
        r matches Ok(m) && m@ == lighting_reports(brightness, rate, mode),
{
    let header = Header::WithMode(mode.mode_id());
    let mut b = MessageBuilder::new(OPERATION_ID, NUM_REPORTS).with_header(header)?;
    b = b.push(rate)?;
    b = b.push(brightness)?;
    b = b.push(mode.num_colours())?;
    b = b.push(rate)?;
    b = b.push(brightness)?;
    let colours = mode.colours();
    proof {
        mode.lemma_num_colours();
    }
    assert(placed(b@, brightness, rate, mode, 0));
    let mut k: usize = 0;
    while k < colours.len()
        invariant
            k <= colours@.len() <= 7,
            colours@ == mode.spec_colours(),
            placed(b@, brightness, rate, mode, k as int),
        decreases colours@.len() - k,
    {
        let block = colours[k].bytes();
        b = b.push_block(&block)?;
        assert(placed(b@, brightness, rate, mode, k + 1));
        k += 1;
    }
    let m = b.build()?;
    assert(m@ =~~= lighting_reports(brightness, rate, mode));
    Ok(m)
}

} // verus!
