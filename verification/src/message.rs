//! Messages, and the builder that frames blocks of payload into them.

use vstd::prelude::*;
use vstd::slice::slice_to_vec;
use crate::decimal::{decimal, spec_decimal};
use crate::layout::Layout;
use crate::report::{spec_default_header, Header, HeaderSpec, Report, ReportBuilder, REPORT_LEN};

verus! {

/// The standard header of report `index` of an operation.
pub fn default_header(operation: u8, index: u8) -> (h: [u8; 5])
    ensures
        h@ == spec_default_header(operation, index),
{
    Report::default_header(operation, index)
}

/// A message consists of one or more reports which may be sent to a mouse to
/// perform some operation. Their order is the order of transmission.
#[derive(Debug, PartialEq, Eq)]
pub struct Message {
    reports: Vec<Report>,
}

impl View for Message {
    type V = Seq<Seq<u8>>;

    closed spec fn view(&self) -> Seq<Seq<u8>> {
        Seq::new(self.reports@.len(), |j: int| self.reports@[j]@)
    }
}

impl Message {
    #[verifier::type_invariant]
    spec fn inv(self) -> bool {
        self.reports@.len() > 0
    }

    /// Wraps a batch of reports; an empty batch is no message.
    pub fn new(reports: Vec<Report>) -> (r: Option<Message>)
        ensures
            r is Some <==> reports@.len() > 0,
            r matches Some(m) ==> m@ == Seq::new(reports@.len(), |j: int| reports@[j]@),
    {
        if reports.len() > 0 {
            Some(Message { reports })
        } else {
            None
        }
    }

    /// Number of reports; never zero.
    pub fn len(&self) -> (n: usize)
        ensures
            n == self@.len(),
            n > 0,
    {
        proof {
            use_type_invariant(self);
        }
        self.reports.len()
    }

    /// Report `index` of the message.
    pub fn report(&self, index: usize) -> (r: &Report)
        requires
            index < self@.len(),
        ensures
            r@ == self@[index as int],
    {
        &self.reports[index]
    }

    /// The reports in the order of transmission.
    pub fn reports(&self) -> (r: &Vec<Report>)
        ensures
            r@.len() == self@.len(),
            forall|j: int| 0 <= j < r@.len() ==> (#[trigger] r@[j])@ == self@[j],
    {
        &self.reports
    }
}

impl Clone for Message {
    fn clone(&self) -> (m: Self)
        ensures
            m@ == self@,
    {
        proof {
            use_type_invariant(self);
        }
        let mut reports: Vec<Report> = Vec::new();
        let mut j: usize = 0;
        while j < self.reports.len()
            invariant
                j <= self.reports@.len(),
                reports@.len() == j,
                forall|k: int| 0 <= k < j ==> (#[trigger] reports@[k])@ == self.reports@[k]@,
            decreases self.reports@.len() - j,
        {
            reports.push(self.reports[j].clone());
            j += 1;
        }
        let m = Message { reports };
        assert(m@ =~= self@);
        m
    }
}

/// Why a message could not be framed.
#[derive(Debug, Clone, Copy, PartialEq, Eq, Structural)]
pub enum MessageBuilderError {
    /// The batch is full: there is no room left for block `block_i`.
    DataLenError { block_i: usize },
    /// The header of report `report_i` is longer than a report.
    HeaderLenError { report_i: u8, header_len: usize },
    /// Block `block_i` is longer than the payload of one report.
    BlockLenError { block_i: usize, block_len: usize },
}

impl MessageBuilderError {
    /// The error in words.
    pub open spec fn spec_to_string(self) -> Seq<char> {
        match self {
            MessageBuilderError::DataLenError { block_i } => {
                "Message full, not enough room to write block "@ + spec_decimal(block_i as nat)
            },
            MessageBuilderError::HeaderLenError { report_i, header_len } => {
                "Header of report "@ + spec_decimal(report_i as nat) + " too long ("@
                    + spec_decimal(header_len as nat) + ")"@
            },
            MessageBuilderError::BlockLenError { block_i, block_len } => {
                "Block "@ + spec_decimal(block_i as nat) + " too long ("@ + spec_decimal(
                    block_len as nat,
                ) + ")"@
            },
        }
    }

    /// Says in words what went wrong.
    pub fn to_string(&self) -> (text: String)
        ensures
            text@ == self.spec_to_string(),
    {
        match self {
            MessageBuilderError::DataLenError { block_i } => {
                let mut text = "Message full, not enough room to write block ".to_owned();
                text.append(decimal(*block_i).as_str());
                text
            },
            MessageBuilderError::HeaderLenError { report_i, header_len } => {
                let mut text = "Header of report ".to_owned();
                text.append(decimal(*report_i as usize).as_str());
                text.append(" too long (");
                text.append(decimal(*header_len).as_str());
                text.append(")");
                text
            },
            MessageBuilderError::BlockLenError { block_i, block_len } => {
                let mut text = "Block ".to_owned();
                text.append(decimal(*block_i).as_str());
                text.append(" too long (");
                text.append(decimal(*block_len).as_str());
                text.append(")");
                text
            },
        }
    }
}

/// Where an accepted block lies: `bytes` start at `offset` in the payload
/// of report `report`.
pub struct Placed {
    pub report: nat,
    pub offset: nat,
    pub bytes: Seq<u8>,
}

impl Placed {
    /// The payload offset just behind the block.
    pub open spec fn end(self) -> int {
        (self.offset + self.bytes.len()) as int
    }
}

/// The mathematical model of a message under construction: the payload of
/// each report, and every block accepted so far with its place.
pub struct Packing {
    pub layout: Layout,
    pub blocks: Seq<Placed>,
}

impl Packing {
    /// A batch of `num_reports` reports with no payload yet.
    pub open spec fn empty(operation: u8, num_reports: nat, header: HeaderSpec) -> Packing {
        Packing { layout: Layout::empty(operation, num_reports, header), blocks: Seq::empty() }
    }

    /// Block `k` lies whole in the payload of one report.
    pub open spec fn intact(self, k: int) -> bool {
        let p = self.blocks[k];
        &&& p.report < self.layout.num_reports()
        &&& p.report <= self.layout.cursor
        &&& p.end() <= self.layout.payloads[p.report as int].len()
        &&& self.layout.payloads[p.report as int].subrange(p.offset as int, p.end()) == p.bytes
    }

    /// Block `k` lies whole, behind the header, in one report of `reports`.
    pub open spec fn emitted_whole(self, reports: Seq<Seq<u8>>, k: int) -> bool {
        let p = self.blocks[k];
        let h = self.layout.header_len() as int;
        &&& p.report < reports.len()
        &&& h + p.end() <= REPORT_LEN
        &&& reports[p.report as int].subrange(h + p.offset, h + p.end()) == p.bytes
    }

    /// The layout is well formed and every block is intact.
    pub open spec fn wf(self) -> bool {
        &&& self.layout.wf()
        &&& self.blocks.len() <= usize::MAX
        &&& forall|k: int| 0 <= k < self.blocks.len() ==> #[trigger] self.intact(k)
    }

    /// The index that the next block gets.
    pub open spec fn next_block(self) -> usize {
        self.blocks.len() as usize
    }

    /// The model after the layout took `block` and became `next`: the block
    /// is recorded at the end of the report that `next` points to.
    pub open spec fn record(self, next: Layout, block: Seq<u8>) -> Packing {
        Packing {
            layout: next,
            blocks: self.blocks.push(
                Placed {
                    report: next.cursor,
                    offset: (next.fill() - block.len()) as nat,
                    bytes: block,
                },
            ),
        }
    }

    /// Moving to the next report; a capacity error on the last one.
    pub open spec fn incr_report(self) -> Result<Packing, MessageBuilderError> {
        match self.layout.incr_report() {
            Some(next) => Ok(Packing { layout: next, ..self }),
            None => Err(MessageBuilderError::DataLenError { block_i: self.next_block() }),
        }
    }

    /// The error of a header that is longer than a report. No payload can
    /// follow such a header, so it is told before any payload is placed.
    pub open spec fn header_error(self) -> MessageBuilderError {
        MessageBuilderError::HeaderLenError {
            report_i: 0,
            header_len: self.layout.header_len() as usize,
        }
    }

    /// Placing one byte: a header error if the header is longer than a
    /// report, a capacity error if the batch is full.
    pub open spec fn push(self, byte: u8) -> Result<Packing, MessageBuilderError> {
        if self.layout.header_len() > REPORT_LEN {
            Err(self.header_error())
        } else {
            match self.layout.push(byte) {
                Some(next) => Ok(self.record(next, seq![byte])),
                None => Err(MessageBuilderError::DataLenError { block_i: self.next_block() }),
            }
        }
    }

    /// Placing a block that must stay in one report. A header longer than a
    /// report is a header error. Under a header that fits, a block longer
    /// than the payload of one report is refused as such, wherever the
    /// cursor is; one that fits a report but finds no room left is a
    /// capacity error.
    pub open spec fn push_block(self, block: Seq<u8>) -> Result<Packing, MessageBuilderError> {
        if self.layout.header_len() > REPORT_LEN {
            Err(self.header_error())
        } else {
            match self.layout.push_block(block) {
                Some(next) => Ok(self.record(next, block)),
                None => Err(
                    if block.len() > self.layout.data_len() {
                        MessageBuilderError::BlockLenError {
                            block_i: self.next_block(),
                            block_len: block.len() as usize,
                        }
                    } else {
                        MessageBuilderError::DataLenError { block_i: self.next_block() }
                    },
                ),
            }
        }
    }

    /// The bytes of the blocks accepted so far, in the order in which they
    /// came.
    pub open spec fn block_bytes(self) -> Seq<Seq<u8>> {
        Seq::new(self.blocks.len(), |k: int| self.blocks[k].bytes)
    }

    /// Placing each of `blocks` in turn; the first refusal ends it.
    pub open spec fn push_blocks(self, blocks: Seq<Seq<u8>>) -> Result<
        Packing,
        MessageBuilderError,
    >
        decreases blocks.len(),
    {
        if blocks.len() == 0 {
            Ok(self)
        } else {
            match self.push_blocks(blocks.drop_last()) {
                Ok(placed) => placed.push_block(blocks.last()),
                Err(e) => Err(e),
            }
        }
    }

    /// The same batch under another header: the blocks accepted so far are
    /// placed again, in order, in an empty batch with that header. Under a
    /// longer header they may no longer fit.
    pub open spec fn with_header(self, header: HeaderSpec) -> Result<Packing, MessageBuilderError> {
        Packing::empty(self.layout.operation, self.layout.num_reports(), header).push_blocks(
            self.block_bytes(),
        )
    }

    /// The reports of the finished message. A batch of no reports is a
    /// capacity error, a header longer than a report a header error.
    pub open spec fn build(self) -> Result<Seq<Seq<u8>>, MessageBuilderError> {
        if self.layout.num_reports() == 0 {
            Err(MessageBuilderError::DataLenError { block_i: 0 })
        } else if self.layout.header_len() > REPORT_LEN {
            Err(
                MessageBuilderError::HeaderLenError {
                    report_i: 0,
                    header_len: self.layout.header_len() as usize,
                },
            )
        } else {
            Ok(self.layout.reports())
        }
    }

    /// A block longer than what a report has left after its header is
    /// refused as too long, wherever the cursor stands.
    pub proof fn lemma_long_block_refused(self, block: Seq<u8>)
        requires
            self.layout.header_len() <= REPORT_LEN,
            block.len() > REPORT_LEN - self.layout.header_len(),
        ensures
            self.push_block(block) == Err::<Packing, MessageBuilderError>(
                MessageBuilderError::BlockLenError {
                    block_i: self.next_block(),
                    block_len: block.len() as usize,
                },
            ),
    {
    }

    /// A header longer than a report lets no payload in: every byte and
    /// every block is refused with the header error.
    pub proof fn lemma_long_header_refuses(self, byte: u8, block: Seq<u8>)
        requires
            self.layout.header_len() > REPORT_LEN,
        ensures
            self.push(byte) == Err::<Packing, MessageBuilderError>(self.header_error()),
            self.push_block(block) == Err::<Packing, MessageBuilderError>(self.header_error()),
    {
    }

    /// Blocks that are placed one after the other leave a well-formed
    /// batch with the same header and number of reports, and are recorded
    /// in their order behind those that were there.
    pub proof fn lemma_push_blocks(self, blocks: Seq<Seq<u8>>)
        requires
            self.wf(),
            self.blocks.len() + blocks.len() <= usize::MAX,
        ensures
            self.push_blocks(blocks) matches Ok(placed) ==> {
                &&& placed.wf()
                &&& placed.layout.header == self.layout.header
                &&& placed.layout.operation == self.layout.operation
                &&& placed.layout.num_reports() == self.layout.num_reports()
                &&& placed.block_bytes() == self.block_bytes() + blocks
            },
        decreases blocks.len(),
    {
        if blocks.len() == 0 {
            assert(self.block_bytes() + blocks =~= self.block_bytes());
        } else {
            self.lemma_push_blocks(blocks.drop_last());
            if let Ok(before) = self.push_blocks(blocks.drop_last()) {
                if let Ok(placed) = before.push_block(blocks.last()) {
                    assert(before.blocks.len() == before.block_bytes().len());
                    assert(self.blocks.len() == self.block_bytes().len());
                    before.lemma_record_wf(blocks.last());
                    before.layout.lemma_push_block_wf(blocks.last());
                    assert(placed.block_bytes() =~= before.block_bytes().push(blocks.last()));
                    assert(self.block_bytes() + blocks =~= (self.block_bytes()
                        + blocks.drop_last()).push(blocks.last()));
                }
            }
        }
    }

    /// Once a block is refused, the blocks behind it change nothing: the
    /// refusal of the first `k` blocks is the refusal of all.
    pub proof fn lemma_push_blocks_refused(self, blocks: Seq<Seq<u8>>, k: int)
        requires
            0 <= k <= blocks.len(),
            self.push_blocks(blocks.take(k)) is Err,
        ensures
            self.push_blocks(blocks) == self.push_blocks(blocks.take(k)),
        decreases blocks.len() - k,
    {
        if k < blocks.len() {
            assert(blocks.take(k + 1).drop_last() =~= blocks.take(k));
            self.lemma_push_blocks_refused(blocks, k + 1);
        } else {
            assert(blocks.take(k) =~= blocks);
        }
    }

    /// A change of header keeps the blocks: where it succeeds, the batch
    /// holds the same blocks in the same order under the new header.
    pub proof fn lemma_with_header_keeps_blocks(self, header: HeaderSpec)
        requires
            self.wf(),
        ensures
            self.with_header(header) matches Ok(changed) ==> {
                &&& changed.wf()
                &&& changed.layout.header == header
                &&& changed.layout.operation == self.layout.operation
                &&& changed.layout.num_reports() == self.layout.num_reports()
                &&& changed.block_bytes() == self.block_bytes()
            },
            self.blocks.len() == 0 ==> self.with_header(header) == Ok::<
                Packing,
                MessageBuilderError,
            >(Packing::empty(self.layout.operation, self.layout.num_reports(), header)),
    {
        let fresh = Packing::empty(self.layout.operation, self.layout.num_reports(), header);
        fresh.lemma_push_blocks(self.block_bytes());
        assert(fresh.block_bytes() + self.block_bytes() =~= self.block_bytes());
    }

    /// A message that is built has as many reports as were declared, each
    /// of the fixed report length.
    pub proof fn lemma_build_shape(self)
        requires
            self.wf(),
        ensures
            self.build() matches Ok(reports) ==> {
                &&& reports.len() == self.layout.num_reports()
                &&& forall|j: int|
                    0 <= j < reports.len() ==> (#[trigger] reports[j]).len() == REPORT_LEN
            },
    {
        if self.build() is Ok {
            self.layout.lemma_reports_shape();
        }
    }

    /// Recording an accepted block keeps every block intact, the new one
    /// included.
    pub proof fn lemma_record_wf(self, block: Seq<u8>)
        requires
            self.wf(),
            self.blocks.len() < usize::MAX,
            self.layout.push_block(block) is Some,
        ensures
            self.record(self.layout.push_block(block)->0, block).wf(),
    {
        let next = self.layout.push_block(block)->0;
        let after = self.record(next, block);
        self.layout.lemma_push_block_wf(block);
        assert forall|k: int| 0 <= k < after.blocks.len() implies #[trigger] after.intact(k) by {
            let p = after.blocks[k];
            let now = next.payloads[p.report as int];
            if k < self.blocks.len() {
                assert(self.intact(k));
                let was = self.layout.payloads[p.report as int];
                assert(now.subrange(p.offset as int, p.end()) =~= was.subrange(
                    p.offset as int,
                    p.end(),
                ));
            } else {
                assert(now.subrange(p.offset as int, p.end()) =~= block);
            }
        }
    }

    /// Moving to the next report keeps every block intact.
    pub proof fn lemma_incr_report_wf(self)
        requires
            self.wf(),
        ensures
            self.incr_report() matches Ok(next) ==> next.wf(),
    {
        if let Ok(next) = self.incr_report() {
            assert forall|k: int| 0 <= k < next.blocks.len() implies #[trigger] next.intact(k) by {
                assert(self.intact(k));
            }
        }
    }

    /// No block is ever split: each accepted block lies whole, after the
    /// header, in one report of the emitted batch.
    pub proof fn lemma_block_in_one_report(self, k: int)
        requires
            self.wf(),
            self.layout.header_len() <= REPORT_LEN,
            0 <= k < self.blocks.len(),
        ensures
            self.emitted_whole(self.layout.reports(), k),
    {
        let p = self.blocks[k];
        let j = p.report as int;
        assert(self.intact(k));
        self.layout.header.lemma_bytes_len(self.layout.operation, j as u8);
        assert(self.layout.payloads[j].len() <= self.layout.data_len());
        let h = self.layout.header_len() as int;
        assert(self.layout.report(j).subrange(h + p.offset, h + p.end())
            =~= self.layout.payloads[j].subrange(p.offset as int, p.end()));
    }
}

/// Frames single bytes and unsplittable blocks into the reports of one
/// message.
///
/// Every operation takes the builder and hands back the next state, or an
/// error and no builder: a state that refused data cannot be used again.
pub struct MessageBuilder {
    inner: ReportBuilder,
    blocks: Vec<Vec<u8>>,
    placed: Ghost<Seq<Placed>>,
}

impl View for MessageBuilder {
    type V = Packing;

    closed spec fn view(&self) -> Packing {
        Packing { layout: self.inner@, blocks: self.placed@ }
    }
}

impl MessageBuilder {
    #[verifier::type_invariant]
    spec fn inv(self) -> bool {
        &&& self@.wf()
        &&& self.blocks@.len() == self.placed@.len()
        &&& forall|k: int|
            0 <= k < self.blocks@.len() ==> (#[trigger] self.blocks@[k])@ == self.placed@[k].bytes
    }

    /// A builder for `num_reports` reports with the standard header.
    pub fn new(operation_id: u8, num_reports: u8) -> (b: Self)
        ensures
            b@ == Packing::empty(operation_id, num_reports as nat, HeaderSpec::Standard),
            b@.wf(),
    {
        Self::new_with_header(operation_id, num_reports, Header::Standard)
    }

    /// A builder for `num_reports` reports whose headers `header` makes.
    pub fn new_with_header(operation_id: u8, num_reports: u8, header: Header) -> (b: Self)
        ensures
            b@ == Packing::empty(operation_id, num_reports as nat, header@),
            b@.wf(),
    {
        MessageBuilder {
            inner: ReportBuilder::new_with_header(operation_id, num_reports, header),
            blocks: Vec::new(),
            placed: Ghost(Seq::empty()),
        }
    }

    /// Changes the header and nothing else: the blocks accepted so far are
    /// placed again, in their order, in reports with the new header. With a
    /// longer header they may no longer fit, and the first block that finds
    /// no place is refused as `push_block` would refuse it. A byte that was
    /// pushed alone is a block of one byte here. The moves of
    /// `incr_report` are not kept.
    pub fn with_header(self, header: Header) -> (r: Result<Self, MessageBuilderError>)
        ensures
            match r {
                Ok(b) => self@.with_header(header@) == Ok::<Packing, MessageBuilderError>(b@)
                    && b@.wf(),
                Err(e) => self@.with_header(header@) == Err::<Packing, MessageBuilderError>(e),
            },
            r matches Ok(b) ==> b@.block_bytes() == self@.block_bytes(),
            self@.blocks.len() == 0 ==> r is Ok,
    {
        proof {
            use_type_invariant(&self);
            self@.lemma_with_header_keeps_blocks(header@);
        }
        let ghost all = self@.block_bytes();
        let ghost fresh = Packing::empty(
            self@.layout.operation,
            self@.layout.num_reports(),
            header@,
        );
        let MessageBuilder { inner, blocks, placed: _ } = self;
        let mut b = Self::new_with_header(inner.operation(), inner.num_reports(), header);
        let mut k: usize = 0;
        assert(all.take(0) =~= Seq::<Seq<u8>>::empty());
        while k < blocks.len()
            invariant
                k <= blocks@.len() == all.len(),
                all == self@.block_bytes(),
                fresh == Packing::empty(
                    self@.layout.operation,
                    self@.layout.num_reports(),
                    header@,
                ),
                forall|j: int| 0 <= j < blocks@.len() ==> (#[trigger] blocks@[j])@ == all[j],
                fresh.push_blocks(all.take(k as int)) == Ok::<Packing, MessageBuilderError>(b@),
                b@.wf(),
            decreases blocks@.len() - k,
        {
            let ghost placed = b@;
            proof {
                assert(all.take(k + 1).drop_last() =~= all.take(k as int));
                assert(all.take(k + 1).last() == blocks@[k as int]@);
                assert(fresh.push_blocks(all.take(k + 1)) == placed.push_block(blocks@[k as int]@));
            }
            match b.push_block(blocks[k].as_slice()) {
                Ok(next) => {
                    b = next;
                },
                Err(e) => {
                    proof {
                        fresh.lemma_push_blocks_refused(all, k + 1);
                    }
                    return Err(e);
                },
            }
            k += 1;
        }
        assert(all.take(k as int) =~= all);
        Ok(b)
    }

    /// Payload bytes that one report can hold.
    pub fn data_len(&self) -> (n: usize)
        ensures
            n == self@.layout.data_len(),
            n <= REPORT_LEN,
    {
        self.inner.data_len()
    }

    /// Payload bytes that the whole batch can hold.
    pub fn capacity(&self) -> (n: usize)
        ensures
            n == self@.layout.capacity(),
    {
        self.inner.capacity()
    }

    /// Position in the batch, counted in payload bytes.
    pub fn len(&self) -> (n: usize)
        ensures
            n == self@.layout.len(),
    {
        self.inner.len()
    }

    /// The blocks accepted so far, in the order in which they came.
    pub fn blocks(&self) -> (blocks: &Vec<Vec<u8>>)
        ensures
            blocks@.len() == self@.blocks.len(),
            forall|k: int|
                0 <= k < blocks@.len() ==> (#[trigger] blocks@[k])@ == self@.blocks[k].bytes,
    {
        proof {
            use_type_invariant(self);
        }
        &self.blocks
    }

    /// Moves to the next report; fails on the last one.
    pub fn incr_report(self) -> (r: Result<Self, MessageBuilderError>)
        ensures
            match r {
                Ok(b) => self@.incr_report() == Ok::<Packing, MessageBuilderError>(b@) && b@.wf(),
                Err(e) => self@.incr_report() == Err::<Packing, MessageBuilderError>(e),
            },
    {
        proof {
            use_type_invariant(&self);
            self@.lemma_incr_report_wf();
        }
        let MessageBuilder { inner, blocks, placed } = self;
        let block_i = blocks.len();
        match inner.incr_report() {
            Ok(inner) => Ok(MessageBuilder { inner, blocks, placed }),
            Err(_) => Err(MessageBuilderError::DataLenError { block_i }),
        }
    }

    /// Pushes a single byte of payload, moving to the next report first if
    /// the current one is full. A header longer than a report is told
    /// here, before any payload is placed.
    pub fn push(self, byte: u8) -> (r: Result<Self, MessageBuilderError>)
        ensures
            match r {
                Ok(b) => self@.push(byte) == Ok::<Packing, MessageBuilderError>(b@) && b@.wf(),
                Err(e) => self@.push(byte) == Err::<Packing, MessageBuilderError>(e),
            },
    {
        proof {
            use_type_invariant(&self);
        }
        let ghost before = self@;
        let MessageBuilder { inner, mut blocks, placed: _ } = self;
        let block_i = blocks.len();
        let header_len = inner.header_len();
        if header_len > REPORT_LEN {
            return Err(MessageBuilderError::HeaderLenError { report_i: 0, header_len });
        }
        match inner.push(byte) {
            Ok(inner) => {
                let mut block: Vec<u8> = Vec::new();
                block.push(byte);
                assert(block@ =~= seq![byte]);
                blocks.push(block);
                proof {
                    assert(blocks@.len() == blocks.len());
                    before.lemma_record_wf(seq![byte]);
                }
                let ghost after = before.record(inner@, seq![byte]);
                Ok(MessageBuilder { inner, blocks, placed: Ghost(after.blocks) })
            },
            Err(_) => Err(MessageBuilderError::DataLenError { block_i }),
        }
    }

    /// Pushes a block that must not be split across two reports. A block
    /// that the current report has no room for goes to the next one. A
    /// header longer than a report is told here, before any payload is
    /// placed.
    pub fn push_block(self, block: &[u8]) -> (r: Result<Self, MessageBuilderError>)
        ensures
            match r {
                Ok(b) => self@.push_block(block@) == Ok::<Packing, MessageBuilderError>(b@)
                    && b@.wf(),
                Err(e) => self@.push_block(block@) == Err::<Packing, MessageBuilderError>(e),
            },
    {
        proof {
            use_type_invariant(&self);
        }
        let ghost before = self@;
        let MessageBuilder { inner, mut blocks, placed: _ } = self;
        let block_i = blocks.len();
        let header_len = inner.header_len();
        if header_len > REPORT_LEN {
            return Err(MessageBuilderError::HeaderLenError { report_i: 0, header_len });
        }
        let too_long = block.len() > inner.data_len();
        match inner.extend_contiguous(block) {
            Ok(inner) => {
                blocks.push(slice_to_vec(block));
                proof {
                    assert(blocks@.len() == blocks.len());
                    before.lemma_record_wf(block@);
                }
                let ghost after = before.record(inner@, block@);
                Ok(MessageBuilder { inner, blocks, placed: Ghost(after.blocks) })
            },
            Err(_) => {
                if too_long {
                    Err(MessageBuilderError::BlockLenError { block_i, block_len: block.len() })
                } else {
                    Err(MessageBuilderError::DataLenError { block_i })
                }
            },
        }
    }

    /// Emits the message: for each report its header, its payload, and
    /// zeros up to the fixed report length.
    pub fn build(self) -> (r: Result<Message, MessageBuilderError>)
        ensures
            match r {
                Ok(m) => self@.build() == Ok::<Seq<Seq<u8>>, MessageBuilderError>(m@),
                Err(e) => self@.build() == Err::<Seq<Seq<u8>>, MessageBuilderError>(e),
            },
            r matches Ok(m) ==> m@.len() == self@.layout.num_reports() && forall|j: int|
                0 <= j < m@.len() ==> (#[trigger] m@[j]).len() == REPORT_LEN,
            r matches Ok(m) ==> forall|k: int|
                0 <= k < self@.blocks.len() ==> #[trigger] self@.emitted_whole(m@, k),
    {
        proof {
            use_type_invariant(&self);
            self@.lemma_build_shape();
            if self@.build() is Ok {
                assert forall|k: int| 0 <= k < self@.blocks.len() implies #[trigger] self@.emitted_whole(
                    self@.layout.reports(),
                    k,
                ) by {
                    self@.lemma_block_in_one_report(k);
                }
            }
        }
        let MessageBuilder { inner, blocks: _, placed: _ } = self;
        if inner.num_reports() == 0 {
            return Err(MessageBuilderError::DataLenError { block_i: 0 });
        }
        let header_len = inner.header_len();
        if header_len > REPORT_LEN {
            return Err(MessageBuilderError::HeaderLenError { report_i: 0, header_len });
        }
        let ghost layout = inner@;
        let reports = inner.build();
        let m = Message { reports };
        assert(m@ =~= layout.reports());
        Ok(m)
    }
}

} // verus!
