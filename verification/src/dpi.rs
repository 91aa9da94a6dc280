//! The DPI profile command: four reports that carry lift-off distance,
//! debounce time, polling rate and up to seven DPI stages.

use vstd::prelude::*;
use crate::message::{Message, MessageBuilder, MessageBuilderError, Packing};
use crate::report::{HeaderSpec, HEADER_FLAG, HEADER_MARK, REPORT_ID, REPORT_LEN};

verus! {

/// Operation code of the DPI command.
pub const OPERATION_ID: u8 = 0x04;

/// Number of reports in a DPI message.
pub const NUM_REPORTS: u8 = 4;

/// The polling rates that the device knows, in Hz. A rate is sent as its
/// place in this list, counted from one.
pub const POLLING_RATES: [u16; 4] = [125, 250, 500, 1000];

/// The three bytes that close the block of each DPI stage.
pub const STAGE_TRAILER: [u8; 3] = [0xFF, 0xA4, 0x0D];

/// The most stages that a DPI message has room for.
pub const MAX_STAGES: usize = 7;

/// How far apart two rates are.
pub open spec fn distance(a: int, b: int) -> int {
    if a >= b {
        a - b
    } else {
        b - a
    }
}

/// The rate that identifier `id` stands for.
pub open spec fn rate_of(id: int) -> int {
    POLLING_RATES@[id - 1] as int
}

/// Of two identifiers, the one whose rate is nearer to `rate`; the second
/// one where both are as near.
pub open spec fn nearer(rate: int, first: int, second: int) -> int {
    if distance(rate, rate_of(second)) <= distance(rate, rate_of(first)) {
        second
    } else {
        first
    }
}

/// The identifier of the known rate nearest to `rate`. Where two known
/// rates are as near, the higher one is chosen.
pub open spec fn spec_polling_rate_id(rate: u16) -> u8 {
    nearer(rate as int, nearer(rate as int, nearer(rate as int, 1, 2), 3), 4) as u8
}

/// The chosen identifier names a known rate, no known rate is nearer to
/// the request, and none above it is as near.
pub proof fn lemma_polling_rate_nearest(rate: u16)
    ensures
        1 <= spec_polling_rate_id(rate) <= 4,
        forall|id: int|
            1 <= id <= 4 ==> distance(rate as int, rate_of(spec_polling_rate_id(rate) as int))
                <= distance(rate as int, #[trigger] rate_of(id)),
        forall|id: int|
            spec_polling_rate_id(rate) < id <= 4 ==> distance(
                rate as int,
                rate_of(spec_polling_rate_id(rate) as int),
            ) < distance(rate as int, #[trigger] rate_of(id)),
{
}

/// The least even number that is not below `value`.
pub open spec fn spec_ceil_to_even(value: u8) -> int {
    value + value % 2
}

/// A DPI value in steps of 50, rounded to the nearest step, half a step
/// upwards.
pub open spec fn spec_stage_magnitude(value: u16) -> u16 {
    ((value + 25) / 50) as u16
}

/// The rounded stage lies within half a step of the requested value.
pub proof fn lemma_stage_magnitude_nearest(value: u16)
    ensures
        50 * spec_stage_magnitude(value) - 25 <= value < 50 * spec_stage_magnitude(value) + 25,
{
}

/// The block of one DPI stage: its magnitude, low byte first, and the
/// trailer.
pub open spec fn spec_stage_block(value: u16) -> Seq<u8> {
    let magnitude = spec_stage_magnitude(value);
    seq![(magnitude % 256) as u8, (magnitude / 256) as u8, 0xFFu8, 0xA4u8, 0x0Du8]
}

/// The six scalar bytes at the start of the payload: the selector of the
/// active stage, the stage count, lift-off distance, debounce time,
/// polling rate identifier, and a reserved zero.
pub open spec fn scalars(
    lift_off_distance: u8,
    debounce_time: u8,
    polling_rate: u16,
    stages: Seq<u16>,
) -> Seq<u8> {
    seq![
        0x00u8,
        stages.len() as u8,
        lift_off_distance,
        spec_ceil_to_even(debounce_time) as u8,
        spec_polling_rate_id(polling_rate),
        0x00u8,
    ]
}

/// The stage whose block lies over payload byte `q` of report `j`, if the
/// layout has a stage there: the first report holds the scalars and one
/// stage, each later report two stages.
pub open spec fn stage_slot(j: int, q: int) -> Option<int> {
    if j == 0 {
        if 6 <= q < 11 {
            Some(0int)
        } else {
            None
        }
    } else if 0 <= q < 10 {
        Some(1 + 2 * (j - 1) + q / 5)
    } else {
        None
    }
}

/// Payload byte `q` of report `j` of a DPI message.
pub open spec fn payload_byte(
    lift_off_distance: u8,
    debounce_time: u8,
    polling_rate: u16,
    stages: Seq<u16>,
    j: int,
    q: int,
) -> u8 {
    if j == 0 && 0 <= q < 6 {
        scalars(lift_off_distance, debounce_time, polling_rate, stages)[q]
    } else {
        match stage_slot(j, q) {
            Some(k) => if k < stages.len() {
                spec_stage_block(stages[k])[if j == 0 {
                    q - 6
                } else {
                    q % 5
                }]
            } else {
                0
            },
            None => 0,
        }
    }
}

/// Report `j` of a DPI message: the standard header and eleven payload
/// bytes.
pub open spec fn dpi_report(
    lift_off_distance: u8,
    debounce_time: u8,
    polling_rate: u16,
    stages: Seq<u16>,
    j: int,
) -> Seq<u8> {
    Seq::new(
        REPORT_LEN as nat,
        |o: int|
            if o == 0 {
                REPORT_ID
            } else if o == 1 {
                OPERATION_ID
            } else if o == 2 {
                HEADER_MARK
            } else if o == 3 {
                j as u8
            } else if o == 4 {
                HEADER_FLAG
            } else {
                payload_byte(lift_off_distance, debounce_time, polling_rate, stages, j, o - 5)
            },
    )
}

/// The four reports of a DPI message.
pub open spec fn dpi_reports(
    lift_off_distance: u8,
    debounce_time: u8,
    polling_rate: u16,
    stages: Seq<u16>,
) -> Seq<Seq<u8>> {
    Seq::new(
        NUM_REPORTS as nat,
        |j: int| dpi_report(lift_off_distance, debounce_time, polling_rate, stages, j),
    )
}

fn abs_diff(a: u16, b: u16) -> (d: u16)
    ensures
        d == distance(a as int, b as int),
{
    if a >= b {
        a - b
    } else {
        b - a
    }
}

/// Quantizes a polling rate to the nearest rate that the device knows and
/// returns its identifier, from 1 for 125 Hz to 4 for 1000 Hz. A request
/// halfway between two known rates gets the higher one.
pub fn polling_rate_id(polling_rate: u16) -> (id: u8)
    ensures
        id == spec_polling_rate_id(polling_rate),
        1 <= id <= 4,
{
    let mut best: usize = 3;
    let mut i: usize = 3;
    while i > 0
        invariant
            i <= best <= 3,
            forall|id: int|
                i < id <= 4 ==> distance(polling_rate as int, rate_of(best + 1)) <= distance(
                    polling_rate as int,
                    #[trigger] rate_of(id),
                ),
            forall|id: int|
                best + 1 < id <= 4 ==> distance(polling_rate as int, rate_of(best + 1)) < distance(
                    polling_rate as int,
                    #[trigger] rate_of(id),
                ),
        decreases i,
    {
        i -= 1;
        if abs_diff(polling_rate, POLLING_RATES[i]) < abs_diff(polling_rate, POLLING_RATES[best]) {
            best = i;
        }
    }
    proof {
        lemma_polling_rate_nearest(polling_rate);
        assert(rate_of(1) == 125 && rate_of(2) == 250 && rate_of(3) == 500 && rate_of(4) == 1000);
    }
    best as u8 + 1
}

/// Rounds a debounce time up to the next even number.
pub fn ceil_to_even(value: u8) -> (even: u8)
    requires
        value < u8::MAX,
    ensures
        even == spec_ceil_to_even(value),
        even % 2 == 0,
        value <= even <= value + 1,
{
    value + value % 2
}

/// Rounds a DPI value to the nearest multiple of 50, halves upwards, and
/// returns the multiple's factor.
pub fn stage_magnitude(value: u16) -> (magnitude: u16)
    ensures
        magnitude == spec_stage_magnitude(value),
{
    ((value as u32 + 25) / 50) as u16
}

/// The block of one DPI stage.
pub fn stage_block(value: u16) -> (block: [u8; 5])
    ensures
        block@ == spec_stage_block(value),
{
    let magnitude = stage_magnitude(value);
    let low: u16 = magnitude & 0x00FF;
    let high: u16 = (magnitude & 0xFF00) >> 8;
    assert(low == magnitude % 256 && high == magnitude / 256) by (bit_vector)
        requires
            low == magnitude & 0x00FF,
            high == (magnitude & 0xFF00) >> 8,
    ;
    let block = [low as u8, high as u8, STAGE_TRAILER[0], STAGE_TRAILER[1], STAGE_TRAILER[2]];
    assert(block@ =~= spec_stage_block(value));
    block
}

/// Payload bytes that report `j` holds once the scalars and the first `k`
/// stages are placed.
spec fn placed_len(j: int, k: int) -> int {
    if j == 0 {
        if k >= 1 {
            11
        } else {
            6
        }
    } else {
        let first = 1 + 2 * (j - 1);
        if k <= first {
            0
        } else if k >= first + 2 {
            10
        } else {
            5
        }
    }
}

/// The report that the builder points to once `k` stages are placed.
spec fn placed_cursor(k: int) -> int {
    if k <= 1 {
        0
    } else if k <= 3 {
        1
    } else if k <= 5 {
        2
    } else {
        3
    }
}

/// The builder state once the scalars and the first `k` stages are placed.
spec fn placed(
    b: Packing,
    lift_off_distance: u8,
    debounce_time: u8,
    polling_rate: u16,
    stages: Seq<u16>,
    k: int,
) -> bool {
    &&& b.wf()
    &&& b.layout.operation == OPERATION_ID
    &&& b.layout.header == HeaderSpec::Standard
    &&& b.layout.num_reports() == 4
    &&& b.layout.cursor == placed_cursor(k)
    &&& b.blocks.len() == 6 + k
    &&& forall|j: int|
        0 <= j < 4 ==> (#[trigger] b.layout.payloads[j]).len() == placed_len(j, k)
    &&& forall|j: int, q: int|
        0 <= j < 4 && 0 <= q < placed_len(j, k) ==> #[trigger] b.layout.payloads[j][q]
            == payload_byte(lift_off_distance, debounce_time, polling_rate, stages, j, q)
}

/// Encodes a DPI profile. The debounce time is rounded up to an even
/// number, the polling rate is replaced by the identifier of the nearest
/// known rate, and each stage is rounded to the nearest multiple of 50.
///
/// The payload starts with the selector of the first stage, the stage
/// count, lift-off distance, debounce time, polling rate identifier and a
/// zero byte; one five-byte block per stage follows. The message has room
/// for seven stages: an eighth is refused as block 13 of the message.
pub fn dpi_message(
    lift_off_distance: u8,
    debounce_time: u8,
    polling_rate: u16,
    stages: Vec<u16>,
) -> (r: Result<Message, MessageBuilderError>)
    requires
        debounce_time < u8::MAX,
    ensures
        match r {
            Ok(m) => stages@.len() <= MAX_STAGES && m@ == dpi_reports(
                lift_off_distance,
                debounce_time,
                polling_rate,
                stages@,
            ),
            Err(e) => stages@.len() > MAX_STAGES && e == (MessageBuilderError::DataLenError {
                block_i: 13,
            }),
        },
{
    let debounce_time_even = ceil_to_even(debounce_time);
    let rate_id = polling_rate_id(polling_rate);
    let mut b = MessageBuilder::new(OPERATION_ID, NUM_REPORTS);
    b = b.push(0x00)?;  // Select first DPI stage
    b = b.push(#[verifier::truncate] (stages.len() as u8))?;
    b = b.push(lift_off_distance)?;
    b = b.push(debounce_time_even)?;
    b = b.push(rate_id)?;
    b = b.push(0x00)?;
    let mut k: usize = 0;
    while k < stages.len()
        invariant
            k <= stages@.len(),
            k <= MAX_STAGES,
            placed(b@, lift_off_distance, debounce_time, polling_rate, stages@, k as int),
        decreases stages@.len() - k,
    {
        let block = stage_block(stages[k]);
        b = b.push_block(&block)?;
        assert(placed(b@, lift_off_distance, debounce_time, polling_rate, stages@, k + 1));
        k += 1;
    }
    let m = b.build()?;
    assert(m@ =~~= dpi_reports(lift_off_distance, debounce_time, polling_rate, stages@));
    Ok(m)
}

} // verus!
