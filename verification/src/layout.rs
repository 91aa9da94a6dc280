//! The mathematical model of a batch under construction: which payload bytes
//! sit in which report, and what the packing operations do to them.

use vstd::prelude::*;
use crate::report::{HeaderSpec, REPORT_LEN};

verus! {

/// A batch under construction.
///
/// `payloads[j]` holds the payload bytes placed in report `j` so far, and
/// `cursor` is the report that the next byte goes to while it has room.
pub struct Layout {
    pub operation: u8,
    pub header: HeaderSpec,
    pub payloads: Seq<Seq<u8>>,
    pub cursor: nat,
}

impl Layout {
    pub open spec fn num_reports(self) -> nat {
        self.payloads.len()
    }

    pub open spec fn header_len(self) -> nat {
        self.header.len()
    }

    /// Payload bytes that one report can hold.
    pub open spec fn data_len(self) -> nat {
        if self.header_len() <= REPORT_LEN {
            (REPORT_LEN - self.header_len()) as nat
        } else {
            0
        }
    }

    /// Payload bytes that the whole batch can hold.
    pub open spec fn capacity(self) -> nat {
        self.num_reports() * self.data_len()
    }

    /// Payload bytes in the current report.
    pub open spec fn fill(self) -> nat {
        if self.cursor < self.num_reports() {
            self.payloads[self.cursor as int].len()
        } else {
            0
        }
    }

    /// Payload bytes that the current report can still take.
    pub open spec fn room(self) -> nat {
        if self.cursor < self.num_reports() && self.fill() <= self.data_len() {
            (self.data_len() - self.fill()) as nat
        } else {
            0
        }
    }

    /// Position in the batch: the payload space of the reports before the
    /// current one, used or skipped, and the bytes in the current one.
    pub open spec fn len(self) -> nat {
        self.cursor * self.data_len() + self.fill()
    }

    /// No report holds more than its payload capacity, the cursor names a
    /// report, and the reports after it are still empty.
    pub open spec fn wf(self) -> bool {
        &&& self.num_reports() <= u8::MAX
        &&& self.cursor < self.num_reports() || (self.num_reports() == 0 && self.cursor == 0)
        &&& forall|j: int|
            0 <= j < self.num_reports() ==> (#[trigger] self.payloads[j]).len() <= self.data_len()
        &&& forall|j: int|
            self.cursor < j < self.num_reports() ==> (#[trigger] self.payloads[j]).len() == 0
    }

    /// A batch of `num_reports` reports with no payload yet.
    pub open spec fn empty(operation: u8, num_reports: nat, header: HeaderSpec) -> Layout {
        Layout {
            operation,
            header,
            payloads: Seq::new(num_reports, |j: int| Seq::<u8>::empty()),
            cursor: 0,
        }
    }

    /// The batch with `bytes` added at the end of the current report.
    pub open spec fn append(self, bytes: Seq<u8>) -> Layout {
        Layout {
            payloads: self.payloads.update(
                self.cursor as int,
                self.payloads[self.cursor as int] + bytes,
            ),
            ..self
        }
    }

    /// The batch with the cursor on the next report.
    pub open spec fn advance(self) -> Layout {
        Layout { cursor: self.cursor + 1, ..self }
    }

    /// Moving to the next report; `None` on the last one.
    pub open spec fn incr_report(self) -> Option<Layout> {
        if self.cursor + 1 < self.num_reports() {
            Some(self.advance())
        } else {
            None
        }
    }

    /// Placing a run that must stay in one report: in the current report if
    /// it has room for all of it, else at the start of the next one. `None`
    /// if the run is longer than a report's payload or no report is left.
    pub open spec fn push_block(self, block: Seq<u8>) -> Option<Layout> {
        if block.len() > self.data_len() || self.num_reports() == 0 {
            None
        } else if block.len() <= self.room() {
            Some(self.append(block))
        } else if self.cursor + 1 < self.num_reports() {
            Some(self.advance().append(block))
        } else {
            None
        }
    }

    /// Placing one byte.
    pub open spec fn push(self, byte: u8) -> Option<Layout> {
        self.push_block(seq![byte])
    }

    /// The batch after each of `bytes` has been pushed in turn; meaningful
    /// where `bytes` fits (see `extend`).
    pub open spec fn spread(self, bytes: Seq<u8>) -> Layout
        decreases bytes.len(),
    {
        if bytes.len() == 0 {
            self
        } else {
            match self.spread(bytes.drop_last()).push(bytes.last()) {
                Some(next) => next,
                None => self,
            }
        }
    }

    /// Placing a run byte by byte, all of it or nothing: `None` if the batch
    /// has less space left than `bytes` needs.
    pub open spec fn extend(self, bytes: Seq<u8>) -> Option<Layout> {
        if self.len() + bytes.len() <= self.capacity() {
            Some(self.spread(bytes))
        } else {
            None
        }
    }

    /// The capacity of a batch whose header fits in a report is the number
    /// of reports times what a report has left after its header.
    pub proof fn lemma_capacity(self)
        requires
            self.header_len() <= REPORT_LEN,
        ensures
            self.capacity() == self.num_reports() * (REPORT_LEN - self.header_len()),
    {
    }

    /// A well-formed batch never holds more than its capacity.
    pub proof fn lemma_len_within_capacity(self)
        requires
            self.wf(),
        ensures
            self.len() <= self.capacity(),
    {
        if self.num_reports() > 0 {
            assert(self.payloads[self.cursor as int].len() <= self.data_len());
            assert((self.cursor + 1) * self.data_len() <= self.num_reports() * self.data_len())
                by (nonlinear_arith)
                requires
                    self.cursor + 1 <= self.num_reports(),
            ;
            assert((self.cursor + 1) * self.data_len() == self.cursor * self.data_len()
                + self.data_len()) by (nonlinear_arith);
        }
    }

    /// A byte is accepted exactly while the batch is not full, and moves the
    /// position by one.
    pub proof fn lemma_push(self, byte: u8)
        requires
            self.wf(),
        ensures
            self.push(byte) is Some <==> self.len() < self.capacity(),
            self.push(byte) matches Some(next) ==> next.wf() && next.len() == self.len() + 1
                && next.capacity() == self.capacity(),
    {
        self.lemma_len_within_capacity();
        let d = self.data_len();
        assert(seq![byte].len() == 1);
        if d == 0 {
            assert(self.num_reports() * d == 0) by (nonlinear_arith)
                requires
                    d == 0,
            ;
        } else if self.num_reports() > 0 {
            assert(self.payloads[self.cursor as int].len() <= d);
            assert((self.cursor + 1) * d == self.cursor * d + d) by (nonlinear_arith);
            if self.cursor + 1 < self.num_reports() {
                assert((self.cursor + 2) * d <= self.num_reports() * d) by (nonlinear_arith)
                    requires
                        self.cursor + 2 <= self.num_reports(),
                ;
                assert((self.cursor + 2) * d == (self.cursor + 1) * d + d) by (nonlinear_arith);
            } else {
                assert((self.cursor + 1) * d == self.num_reports() * d);
            }
        }
        self.lemma_push_block_wf(seq![byte]);
    }

    /// A run that the batch has space for is taken byte by byte without a
    /// gap: the position moves by the length of the run.
    pub proof fn lemma_spread(self, bytes: Seq<u8>)
        requires
            self.wf(),
            self.len() + bytes.len() <= self.capacity(),
        ensures
            self.spread(bytes).wf(),
            self.spread(bytes).len() == self.len() + bytes.len(),
            self.spread(bytes).capacity() == self.capacity(),
            self.spread(bytes).header == self.header,
            self.spread(bytes).operation == self.operation,
        decreases bytes.len(),
    {
        if bytes.len() > 0 {
            self.lemma_spread(bytes.drop_last());
            self.spread(bytes.drop_last()).lemma_push(bytes.last());
            self.spread(bytes.drop_last()).lemma_push_block_wf(seq![bytes.last()]);
        }
    }

    /// An accepted run leaves a well-formed batch.
    pub proof fn lemma_push_block_wf(self, block: Seq<u8>)
        requires
            self.wf(),
        ensures
            self.push_block(block) matches Some(next) ==> next.wf() && next.num_reports()
                == self.num_reports() && next.header == self.header && next.operation
                == self.operation,
    {
        if let Some(next) = self.push_block(block) {
            assert(self.payloads[self.cursor as int].len() <= self.data_len());
            assert forall|j: int| 0 <= j < next.num_reports() implies (#[trigger] next.payloads[j]).len()
                <= next.data_len() by {
                assert(self.payloads[j].len() <= self.data_len());
            }
            assert forall|j: int| next.cursor < j < next.num_reports() implies (
            #[trigger] next.payloads[j]).len() == 0 by {
                assert(self.payloads[j].len() == 0);
            }
        }
    }

    /// Every emitted report has the fixed report length.
    pub proof fn lemma_report_len(self, j: int)
        requires
            self.wf(),
            self.header_len() <= REPORT_LEN,
            0 <= j < self.num_reports(),
        ensures
            self.report(j).len() == REPORT_LEN,
    {
        self.header.lemma_bytes_len(self.operation, j as u8);
        assert(self.payloads[j].len() <= self.data_len());
    }

    /// The emitted batch has as many reports as were declared, each of the
    /// fixed report length.
    pub proof fn lemma_reports_shape(self)
        requires
            self.wf(),
            self.header_len() <= REPORT_LEN,
        ensures
            self.reports().len() == self.num_reports(),
            forall|j: int|
                0 <= j < self.num_reports() ==> (#[trigger] self.reports()[j]).len() == REPORT_LEN,
    {
        assert forall|j: int| 0 <= j < self.num_reports() implies (#[trigger] self.reports()[j]).len()
            == REPORT_LEN by {
            self.lemma_report_len(j);
        }
    }

    /// A run longer than what a report has left after its header is
    /// refused, wherever the cursor stands.
    pub proof fn lemma_long_block_refused(self, block: Seq<u8>)
        requires
            self.header_len() <= REPORT_LEN,
            block.len() > REPORT_LEN - self.header_len(),
        ensures
            self.push_block(block) is None,
    {
    }

    /// The zero bytes that fill report `j` up to its fixed length.
    pub open spec fn padding(self, j: int) -> Seq<u8> {
        Seq::new(
            (REPORT_LEN - self.header_len() - self.payloads[j].len()) as nat,
            |k: int| 0u8,
        )
    }

    /// Report `j` as it goes on the wire: header, payload, zero padding.
    pub open spec fn report(self, j: int) -> Seq<u8> {
        self.header.bytes(self.operation, j as u8) + self.payloads[j] + self.padding(j)
    }

    /// The whole batch as it goes on the wire.
    pub open spec fn reports(self) -> Seq<Seq<u8>> {
        Seq::new(self.num_reports(), |j: int| self.report(j))
    }
}

} // verus!
