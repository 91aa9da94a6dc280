//! Fixed-size reports, their headers, and the builder that packs payload
//! bytes into a batch of them.

use vstd::prelude::*;
use crate::layout::Layout;

verus! {

/// ID required as the first byte of all HID reports.
pub const REPORT_ID: u8 = 0x03;

/// Number of bytes in each report.
pub const REPORT_LEN: usize = 16;

/// Number of bytes in the standard header of a report.
pub const DEFAULT_HEADER_LEN: usize = 5;

/// Third byte of the standard header.
pub const HEADER_MARK: u8 = 0xFB;

/// Fifth byte of the standard header.
pub const HEADER_FLAG: u8 = 0x01;

/// The standard header of report `index` of an operation.
pub open spec fn spec_default_header(operation: u8, index: u8) -> Seq<u8> {
    seq![REPORT_ID, operation, HEADER_MARK, index, HEADER_FLAG]
}

/// How the first bytes of each report of a batch are made.
#[derive(Debug, PartialEq, Eq)]
pub enum Header {
    /// Report id, operation, `0xFB`, report index, `0x01`.
    Standard,
    /// The standard header followed by a lighting mode identifier.
    WithMode(u8),
    /// Report id, operation, `0xFB`: the standard header without index and flag.
    Truncated,
    /// The same caller-supplied bytes in front of every report.
    Custom(Vec<u8>),
}

/// Mathematical value of a [`Header`].
pub enum HeaderSpec {
    Standard,
    WithMode(u8),
    Truncated,
    Custom(Seq<u8>),
}

impl HeaderSpec {
    /// The header bytes of report `index`.
    pub open spec fn bytes(self, operation: u8, index: u8) -> Seq<u8> {
        match self {
            HeaderSpec::Standard => spec_default_header(operation, index),
            HeaderSpec::WithMode(mode) => spec_default_header(operation, index).push(mode),
            HeaderSpec::Truncated => seq![REPORT_ID, operation, HEADER_MARK],
            HeaderSpec::Custom(prefix) => prefix,
        }
    }

    /// Header length; it is the same for every report.
    pub open spec fn len(self) -> nat {
        match self {
            HeaderSpec::Standard => 5,
            HeaderSpec::WithMode(_) => 6,
            HeaderSpec::Truncated => 3,
            HeaderSpec::Custom(prefix) => prefix.len(),
        }
    }

    /// Every header this strategy makes has length `len()`.
    pub proof fn lemma_bytes_len(self, operation: u8, index: u8)
        ensures
            self.bytes(operation, index).len() == self.len(),
    {
    }
}

impl View for Header {
    type V = HeaderSpec;

    open spec fn view(&self) -> HeaderSpec {
        match self {
            Header::Standard => HeaderSpec::Standard,
            Header::WithMode(mode) => HeaderSpec::WithMode(*mode),
            Header::Truncated => HeaderSpec::Truncated,
            Header::Custom(prefix) => HeaderSpec::Custom(prefix@),
        }
    }
}

impl Header {
    pub fn len(&self) -> (n: usize)
        ensures
            n == self@.len(),
    {
        match self {
            Header::Standard => DEFAULT_HEADER_LEN,
            Header::WithMode(_) => DEFAULT_HEADER_LEN + 1,
            Header::Truncated => 3,
            Header::Custom(prefix) => prefix.len(),
        }
    }

    /// The header bytes of report `index`.
    pub fn header_for(&self, operation: u8, index: u8) -> (h: Vec<u8>)
        ensures
            h@ == self@.bytes(operation, index),
    {
        let mut h: Vec<u8> = Vec::new();
        match self {
            Header::Standard => {
                h.push(REPORT_ID);
                h.push(operation);
                h.push(HEADER_MARK);
                h.push(index);
                h.push(HEADER_FLAG);
            },
            Header::WithMode(mode) => {
                h.push(REPORT_ID);
                h.push(operation);
                h.push(HEADER_MARK);
                h.push(index);
                h.push(HEADER_FLAG);
                h.push(*mode);
            },
            Header::Truncated => {
                h.push(REPORT_ID);
                h.push(operation);
                h.push(HEADER_MARK);
            },
            Header::Custom(prefix) => {
                let mut k: usize = 0;
                while k < prefix.len()
                    invariant
                        k <= prefix.len(),
                        h@ == prefix@.take(k as int),
                    decreases prefix.len() - k,
                {
                    h.push(prefix[k]);
                    k += 1;
                }
            },
        }
        h
    }
}

/// One 16-byte feature report.
#[derive(Debug, PartialEq, Eq)]
pub struct Report {
    data: Vec<u8>,
}

impl View for Report {
    type V = Seq<u8>;

    closed spec fn view(&self) -> Seq<u8> {
        self.data@
    }
}

impl Report {
    #[verifier::type_invariant]
    spec fn inv(self) -> bool {
        self.data@.len() == REPORT_LEN
    }

    /// The standard header of report `index` of an operation.
    pub fn default_header(operation: u8, index: u8) -> (h: [u8; 5])
        ensures
            h@ == spec_default_header(operation, index),
    {
        [REPORT_ID, operation, HEADER_MARK, index, HEADER_FLAG]
    }

    /// Wraps 16 bytes as a report; any other length is refused.
    pub fn new(data: Vec<u8>) -> (r: Option<Report>)
        ensures
            r is Some <==> data@.len() == REPORT_LEN,
            r matches Some(report) ==> report@ == data@,
    {
        if data.len() == REPORT_LEN {
            Some(Report { data })
        } else {
            None
        }
    }

    /// The bytes to put on the wire.
    pub fn data(&self) -> (bytes: &Vec<u8>)
        ensures
            bytes@ == self@,
            bytes@.len() == REPORT_LEN,
    {
        proof {
            use_type_invariant(self);
        }
        &self.data
    }
}

impl Clone for Report {
    fn clone(&self) -> (r: Self)
        ensures
            r@ == self@,
    {
        proof {
            use_type_invariant(self);
        }
        Report { data: self.data.clone() }
    }
}

/// Why a builder refused a byte or a run.
#[derive(Debug, Clone, Copy, PartialEq, Eq, Structural)]
pub enum ReportBuilderError {
    /// Pushing to this batch would exceed its capacity.
    LengthError,
}

impl ReportBuilderError {
    /// The error in words.
    pub open spec fn spec_to_string(self) -> Seq<char> {
        "Pushing to this report would exceed its maximum capacity"@
    }

    /// Says in words what went wrong.
    pub fn to_string(&self) -> (text: String)
        ensures
            text@ == self.spec_to_string(),
    {
        "Pushing to this report would exceed its maximum capacity".to_owned()
    }
}

/// Packs payload bytes into a fixed number of reports.
///
/// Every operation takes the builder and hands back the next state, or an
/// error and no builder: a state that refused data cannot be used again.
pub struct ReportBuilder {
    operation: u8,
    num_reports: u8,
    data: Vec<Vec<u8>>,
    i: usize,
    header: Header,
}

impl View for ReportBuilder {
    type V = Layout;

    closed spec fn view(&self) -> Layout {
        Layout {
            operation: self.operation,
            header: self.header@,
            payloads: Seq::new(self.data@.len(), |j: int| self.data@[j]@),
            cursor: self.i as nat,
        }
    }
}

impl ReportBuilder {
    #[verifier::type_invariant]
    spec fn inv(self) -> bool {
        &&& self@.wf()
        &&& self.data@.len() == self.num_reports
    }

    /// A builder for `num_reports` reports with the standard header.
    pub fn new(operation: u8, num_reports: u8) -> (b: Self)
        ensures
            b@ == Layout::empty(operation, num_reports as nat, HeaderSpec::Standard),
            b@.wf(),
    {
        Self::new_with_header(operation, num_reports, Header::Standard)
    }

    /// A builder for `num_reports` reports whose headers `header` makes.
    pub fn new_with_header(operation: u8, num_reports: u8, header: Header) -> (b: Self)
        ensures
            b@ == Layout::empty(operation, num_reports as nat, header@),
            b@.wf(),
    {
        let mut data: Vec<Vec<u8>> = Vec::new();
        let mut k: u8 = 0;
        while k < num_reports
            invariant
                k <= num_reports,
                data@.len() == k,
                forall|j: int| 0 <= j < k ==> (#[trigger] data@[j])@.len() == 0,
            decreases num_reports - k,
        {
            data.push(Vec::new());
            k += 1;
        }
        let b = ReportBuilder { operation, num_reports, data, i: 0, header };
        assert(b@.payloads =~~= Layout::empty(operation, num_reports as nat, header@).payloads);
        b
    }

    /// The operation code that the standard header carries.
    pub fn operation(&self) -> (operation: u8)
        ensures
            operation == self@.operation,
    {
        self.operation
    }

    /// Number of reports in the batch.
    pub fn num_reports(&self) -> (n: u8)
        ensures
            n == self@.num_reports(),
    {
        proof {
            use_type_invariant(self);
        }
        self.num_reports
    }

    /// Length of the header of every report.
    pub fn header_len(&self) -> (n: usize)
        ensures
            n == self@.header_len(),
    {
        self.header.len()
    }

    /// Payload bytes that one report can hold.
    pub fn data_len(&self) -> (n: usize)
        ensures
            n == self@.data_len(),
            n <= REPORT_LEN,
    {
        let header_len = self.header.len();
        if header_len <= REPORT_LEN {
            REPORT_LEN - header_len
        } else {
            0
        }
    }

    /// Payload bytes that the whole batch can hold.
    pub fn capacity(&self) -> (n: usize)
        ensures
            n == self@.capacity(),
    {
        proof {
            use_type_invariant(self);
        }
        let data_len = self.data_len();
        assert(self.num_reports * data_len <= 255 * 16) by (nonlinear_arith)
            requires
                self.num_reports <= 255,
                data_len <= 16,
        ;
        self.num_reports as usize * data_len
    }

    /// Position in the batch, counted in payload bytes.
    pub fn len(&self) -> (n: usize)
        ensures
            n == self@.len(),
    {
        proof {
            use_type_invariant(self);
        }
        if self.num_reports == 0 {
            return 0;
        }
        let data_len = self.data_len();
        assert(self.i * data_len <= 255 * 16) by (nonlinear_arith)
            requires
                self.i <= 255,
                data_len <= 16,
        ;
        assert(self@.payloads[self.i as int].len() <= data_len);
        self.i * data_len + self.data[self.i].len()
    }

    /// Adds `bytes` at the end of the current report, which has room for them.
    fn append(self, bytes: &[u8]) -> (b: Self)
        requires
            bytes@.len() <= self@.room(),
            self@.num_reports() > 0,
        ensures
            b@ == self@.append(bytes@),
            b@.wf(),
    {
        proof {
            use_type_invariant(&self);
        }
        let ghost before = self@;
        let ReportBuilder { operation, num_reports, mut data, i, header } = self;
        data[i].extend_from_slice(bytes);
        proof {
            let after = Seq::new(data@.len(), |j: int| data@[j]@);
            assert(after =~~= before.append(bytes@).payloads);
            assert forall|j: int| 0 <= j < after.len() implies (#[trigger] after[j]).len()
                <= before.data_len() by {
                assert(before.payloads[j].len() <= before.data_len());
            }
            assert forall|j: int| i < j < after.len() implies (#[trigger] after[j]).len() == 0 by {
                assert(before.payloads[j].len() == 0);
            }
        }
        ReportBuilder { operation, num_reports, data, i, header }
    }

    /// Moves to the next report; fails on the last one.
    pub fn incr_report(self) -> (r: Result<Self, ReportBuilderError>)
        ensures
            match r {
                Ok(b) => self@.incr_report() == Some(b@) && b@.wf(),
                Err(_) => self@.incr_report() is None,
            },
    {
        proof {
            use_type_invariant(&self);
        }
        if self.i + 1 >= self.num_reports as usize {
            return Err(ReportBuilderError::LengthError);
        }
        let ReportBuilder { operation, num_reports, data, i, header } = self;
        Ok(ReportBuilder { operation, num_reports, data, i: i + 1, header })
    }

    /// Pushes a single byte of payload, moving to the next report first if
    /// the current one is full.
    pub fn push(self, byte: u8) -> (r: Result<Self, ReportBuilderError>)
        ensures
            match r {
                Ok(b) => self@.push(byte) == Some(b@) && b@.wf(),
                Err(_) => self@.push(byte) is None,
            },
    {
        proof {
            use_type_invariant(&self);
        }
        let data_len = self.data_len();
        if self.num_reports == 0 || data_len == 0 {
            return Err(ReportBuilderError::LengthError);
        }
        let mut s = self;
        if s.data[s.i].len() == data_len {
            match s.incr_report() {
                Ok(next) => {
                    s = next;
                },
                Err(e) => {
                    return Err(e);
                },
            }
        }
        let one: [u8; 1] = [byte];
        assert(one@ =~= seq![byte]);
        Ok(s.append(&one))
    }

    /// Pushes each byte of a run in turn, or nothing if the batch has no room
    /// for all of them. The run may straddle reports.
    pub fn extend(self, bytes: &[u8]) -> (r: Result<Self, ReportBuilderError>)
        ensures
            match r {
                Ok(b) => self@.extend(bytes@) == Some(b@) && b@.wf(),
                Err(_) => self@.extend(bytes@) is None,
            },
    {
        proof {
            use_type_invariant(&self);
            self@.lemma_len_within_capacity();
        }
        // Exit without pushing anything if we don't have room to push everything
        if self.capacity() - self.len() < bytes.len() {
            return Err(ReportBuilderError::LengthError);
        }
        let mut s = self;
        let mut k: usize = 0;
        assert(bytes@.take(0) =~= Seq::<u8>::empty());
        while k < bytes.len()
            invariant
                k <= bytes@.len(),
                self@.wf(),
                self@.len() + bytes@.len() <= self@.capacity(),
                s@ == self@.spread(bytes@.take(k as int)),
            decreases bytes@.len() - k,
        {
            proof {
                self@.lemma_spread(bytes@.take(k as int));
                s@.lemma_push(bytes@[k as int]);
                assert(bytes@.take(k + 1).drop_last() =~= bytes@.take(k as int));
            }
            match s.push(bytes[k]) {
                Ok(next) => {
                    s = next;
                },
                Err(e) => {
                    return Err(e);
                },
            }
            k += 1;
        }
        proof {
            assert(bytes@.take(k as int) =~= bytes@);
            self@.lemma_spread(bytes@);
        }
        Ok(s)
    }

    /// Pushes a run of bytes that must not be split across two reports. A
    /// run that the current report has no room for goes to the next one.
    pub fn extend_contiguous(self, bytes: &[u8]) -> (r: Result<Self, ReportBuilderError>)
        ensures
            match r {
                Ok(b) => self@.push_block(bytes@) == Some(b@) && b@.wf(),
                Err(_) => self@.push_block(bytes@) is None,
            },
    {
        proof {
            use_type_invariant(&self);
        }
        let data_len = self.data_len();
        if bytes.len() > data_len || self.num_reports == 0 {
            return Err(ReportBuilderError::LengthError);
        }
        let mut s = self;
        let remaining_in_curr = data_len - s.data[s.i].len();
        if remaining_in_curr < bytes.len() {
            match s.incr_report() {
                Ok(next) => {
                    s = next;
                },
                Err(e) => {
                    return Err(e);
                },
            }
        }
        Ok(s.append(bytes))
    }

    /// Emits the batch: for each report its header, its payload, and zeros
    /// up to the fixed report length.
    pub fn build(self) -> (reports: Vec<Report>)
        requires
            self@.header_len() <= REPORT_LEN,
        ensures
            reports@.len() == self@.num_reports(),
            forall|j: int| 0 <= j < reports@.len() ==> (#[trigger] reports@[j])@ == self@.report(j),
            forall|j: int| 0 <= j < reports@.len() ==> (#[trigger] reports@[j])@.len() == REPORT_LEN,
    {
        proof {
            use_type_invariant(&self);
            assert forall|j: int| 0 <= j < self@.num_reports() implies self@.report(j).len()
                == REPORT_LEN by {
                self@.lemma_report_len(j);
            }
        }
        let mut reports: Vec<Report> = Vec::new();
        let mut j: usize = 0;
        while j < self.data.len()
            invariant
                j <= self.data@.len(),
                self.data@.len() == self.num_reports,
                self@.wf(),
                self@.header_len() <= REPORT_LEN,
                reports@.len() == j,
                forall|k: int| 0 <= k < j ==> (#[trigger] reports@[k])@ == self@.report(k),
            decreases self.data@.len() - j,
        {
            let mut data = self.header.header_for(self.operation, j as u8);
            proof {
                self.header@.lemma_bytes_len(self.operation, j as u8);
                assert(self@.payloads[j as int].len() <= self@.data_len());
            }
            let ghost head = data@;
            data.extend_from_slice(self.data[j].as_slice());
            let ghost filled = data@;
            assert(filled =~= head + self@.payloads[j as int]);
            data.resize(REPORT_LEN, 0x0);
            assert(data@ =~= self@.report(j as int)) by {
                assert(data@.subrange(0, filled.len() as int) == filled);
                assert forall|k: int| 0 <= k < filled.len() implies data@[k] == filled[k] by {
                    assert(data@.subrange(0, filled.len() as int)[k] == filled[k]);
                }
            }
            reports.push(Report { data });
            j += 1;
        }
        reports
    }
}

} // verus!
