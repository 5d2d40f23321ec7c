//! The frame: its fixed header, the optional header extensions that shift
//! where the body begins, classification by opcode and body kind, and the
//! metadata that precedes the rows of a ROWS result.
use vstd::prelude::*;
use crate::bytes::{
    copy_array, read_be, read_i32, read_u16, string, string_list_sized, short_string_bytes,
    string_list_layout, utf8_lossy, be_uint, i32_at, u16_at, short_strings, DecodeError,
    lemma_string_list_fits,
};
use vstd::utf8::{decode_utf8, valid_utf8};

verus! {

/// Size of the fixed frame header.
pub const HEADER_SIZE: usize = 9;

/// Size of the tracing identifier extension.
pub const TRACING_ID_SIZE: usize = 16;

/// Header flag: the body is compressed.
pub const COMPRESSION: u8 = 0x01;

/// Header flag: a tracing identifier follows the fixed header.
pub const TRACING: u8 = 0x02;

/// Header flag: a custom payload precedes the body.
pub const CUSTOM_PAYLOAD: u8 = 0x04;

/// Header flag: a list of warnings follows the tracing identifier.
pub const WARNING: u8 = 0x08;

/// Whether `bit` is set in the header flags byte.
pub open spec fn flag_set(flags: u8, bit: u8) -> bool {
    flags & bit == bit
}

/// The offset just past the tracing identifier, or past the fixed header
/// when there is none.
pub open spec fn after_tracing(b: Seq<u8>) -> int {
    if flag_set(b[1], TRACING) {
        25
    } else {
        9
    }
}

/// The tracing identifier of a frame, when its flag is set.
pub open spec fn tracing_of(b: Seq<u8>) -> Option<Seq<u8>> {
    if flag_set(b[1], TRACING) {
        Some(b.subrange(9, 25))
    } else {
        None
    }
}

/// The warnings of a frame, when its flag is set.
pub open spec fn warnings_of(b: Seq<u8>) -> Option<Seq<Seq<char>>> {
    if flag_set(b[1], WARNING) {
        let items = string_list_layout(b.subrange(after_tracing(b), b.len() as int)).unwrap().0;
        Some(Seq::new(items.len(), |i: int| utf8_lossy(items[i])))
    } else {
        None
    }
}

/// The offset where the body of the frame `b` begins: the fixed header, the
/// tracing identifier if flagged, and the exact encoded size of the warnings
/// list if flagged. `None` when the header or an extension does not fit.
pub open spec fn body_start_of(b: Seq<u8>) -> Option<int> {
    if b.len() < 9 || after_tracing(b) > b.len() {
        None
    } else if flag_set(b[1], WARNING) {
        match string_list_layout(b.subrange(after_tracing(b), b.len() as int)) {
            Some((_, size)) => Some(after_tracing(b) + size),
            None => None,
        }
    } else {
        Some(after_tracing(b))
    }
}

/// With the tracing flag and without the warnings flag, the body begins right
/// after the 16-byte tracing identifier.
pub proof fn lemma_body_start_tracing_only(b: Seq<u8>)
    requires
        b.len() >= 25,
        flag_set(b[1], TRACING),
        !flag_set(b[1], WARNING),
    ensures
        body_start_of(b) == Some(25int),
{
}

/// With the tracing flag and a warnings list of one string of `L` bytes, the
/// body begins after the tracing identifier, the list's count, the string's
/// length and its `L` bytes: at `25 + 2 + 2 + L`.
pub proof fn lemma_body_start_tracing_one_warning(b: Seq<u8>)
    requires
        b.len() >= 29,
        flag_set(b[1], TRACING),
        flag_set(b[1], WARNING),
        u16_at(b, 25) == 1,
        b.len() >= 29 + u16_at(b, 27),
    ensures
        body_start_of(b) == Some(29 + u16_at(b, 27)),
{
    let rest = b.subrange(25, b.len() as int);
    assert(u16_at(rest, 0) == 1);
    assert(u16_at(rest, 2) == u16_at(b, 27));
    reveal_with_fuel(short_strings, 2);
}

/// The header flags of a frame, with the offset where its body begins.
pub struct HeaderFlags {
    compression: bool,
    tracing: Option<[u8; 16]>,
    custom_payload: bool,
    warnings: Option<Vec<String>>,
    body_start: usize,
}

impl HeaderFlags {
    pub closed spec fn body_offset(&self) -> int {
        self.body_start as int
    }

    pub closed spec fn compression_flag(&self) -> bool {
        self.compression
    }

    pub closed spec fn custom_payload_flag(&self) -> bool {
        self.custom_payload
    }

    pub closed spec fn tracing_spec(&self) -> Option<Seq<u8>> {
        match self.tracing {
            Some(t) => Some(t@),
            None => None,
        }
    }

    pub closed spec fn warnings_spec(&self) -> Option<Seq<Seq<char>>> {
        match self.warnings {
            Some(w) => Some(w@.map(|i: int, s: String| s@)),
            None => None,
        }
    }

    /// What the header of the frame `b` states.
    pub open spec fn describes(&self, b: Seq<u8>) -> bool {
        &&& body_start_of(b) == Some(self.body_offset())
        &&& self.compression_flag() == flag_set(b[1], COMPRESSION)
        &&& self.custom_payload_flag() == flag_set(b[1], CUSTOM_PAYLOAD)
        &&& self.tracing_spec() == tracing_of(b)
        &&& self.warnings_spec() == warnings_of(b)
    }

    /// Parses the header flags and extensions of a frame. Fails when the
    /// buffer is shorter than the fixed header or a flagged extension.
    pub fn new(buffer: &[u8]) -> (r: Result<HeaderFlags, DecodeError>)
        ensures
            r is Ok <==> body_start_of(buffer@) is Some,
            r matches Ok(h) ==> h.describes(buffer@),
    {
        if buffer.len() < HEADER_SIZE {
            return Err(DecodeError::Truncated { offset: 0, needed: HEADER_SIZE });
        }
        let mut body_start: usize = HEADER_SIZE;
        let flags = buffer[1];
        let compression = flags & COMPRESSION == COMPRESSION;
        let tracing = if flags & TRACING == TRACING {
            if buffer.len() < HEADER_SIZE + TRACING_ID_SIZE {
                return Err(DecodeError::Truncated { offset: HEADER_SIZE, needed: TRACING_ID_SIZE });
            }
            let id: [u8; 16] = copy_array(vstd::slice::slice_subrange(buffer, 9, 25));
            body_start = body_start + TRACING_ID_SIZE;
            Some(id)
        } else {
            None
        };
        let rest = vstd::slice::slice_subrange(buffer, body_start, buffer.len());
        let warnings = if flags & WARNING == WARNING {
            match string_list_sized(rest) {
                Ok((list, size)) => {
                    body_start = body_start + size;
                    proof {
                        let items = string_list_layout(rest@).unwrap().0;
                        assert(list@.map(|i: int, s: String| s@) =~= Seq::new(
                            items.len(),
                            |i: int| utf8_lossy(items[i]),
                        ));
                    }
                    Some(list)
                },
                Err(e) => {
                    return Err(e);
                },
            }
        } else {
            None
        };
        let custom_payload = flags & CUSTOM_PAYLOAD == CUSTOM_PAYLOAD;
        let r = HeaderFlags { compression, tracing, custom_payload, warnings, body_start };
        proof {
            if flags & TRACING == TRACING {
                assert(r.tracing_spec().unwrap() =~= buffer@.subrange(9, 25));
            }
        }
        Ok(r)
    }

    /// Whether the body is flagged as compressed.
    pub fn compression(&self) -> (r: bool)
        ensures
            r == self.compression_flag(),
    {
        self.compression
    }

    /// Whether a custom payload is flagged.
    pub fn custom_payload(&self) -> (r: bool)
        ensures
            r == self.custom_payload_flag(),
    {
        self.custom_payload
    }

    /// The offset in the frame where its body begins.
    pub fn body_start(&self) -> (r: usize)
        ensures
            r == self.body_offset(),
    {
        self.body_start
    }

    /// Hands out the tracing identifier, leaving none behind.
    pub fn take_tracing_id(&mut self) -> (r: Option<[u8; 16]>)
        ensures
            r matches Some(t) ==> old(self).tracing_spec() == Some(t@),
            r is None <==> old(self).tracing_spec() is None,
            final(self).tracing_spec() is None,
            final(self).warnings_spec() == old(self).warnings_spec(),
            final(self).body_offset() == old(self).body_offset(),
            final(self).compression_flag() == old(self).compression_flag(),
            final(self).custom_payload_flag() == old(self).custom_payload_flag(),
    {
        self.tracing.take()
    }

    /// Hands out the warnings, leaving none behind.
    pub fn take_warnings(&mut self) -> (r: Option<Vec<String>>)
        ensures
            r matches Some(w) ==> old(self).warnings_spec() == Some(
                w@.map(|i: int, s: String| s@),
            ),
            r is None <==> old(self).warnings_spec() is None,
            final(self).warnings_spec() is None,
            final(self).tracing_spec() == old(self).tracing_spec(),
            final(self).body_offset() == old(self).body_offset(),
            final(self).compression_flag() == old(self).compression_flag(),
            final(self).custom_payload_flag() == old(self).custom_payload_flag(),
    {
        self.warnings.take()
    }
}


/// Opcode of an ERROR frame.
pub const OPCODE_ERROR: u8 = 0x00;

/// Opcode of a RESULT frame.
pub const OPCODE_RESULT: u8 = 0x08;

/// Result kind: a result without content.
pub const RESULT_VOID: i32 = 0x0001;

/// Result kind: rows.
pub const RESULT_ROWS: i32 = 0x0002;

/// The server error codes of the protocol.
#[derive(Debug, Clone, Copy, PartialEq, Eq, Structural)]
pub enum ErrorKind {
    ServerError,
    ProtocolError,
    AuthenticationError,
    UnavailableException,
    Overloaded,
    IsBootstrapping,
    TruncateError,
    WriteTimeout,
    ReadTimeout,
    ReadFailure,
    FunctionFailure,
    WriteFailure,
    SyntaxError,
    Unauthorized,
    Invalid,
    ConfigureError,
    AlreadyExists,
    Unprepared,
}

impl ErrorKind {
    /// The wire code of this error.
    pub open spec fn spec_code(self) -> i32 {
        match self {
            ErrorKind::ServerError => 0x0000,
            ErrorKind::ProtocolError => 0x000A,
            ErrorKind::AuthenticationError => 0x0100,
            ErrorKind::UnavailableException => 0x1000,
            ErrorKind::Overloaded => 0x1001,
            ErrorKind::IsBootstrapping => 0x1002,
            ErrorKind::TruncateError => 0x1003,
            ErrorKind::WriteTimeout => 0x1100,
            ErrorKind::ReadTimeout => 0x1200,
            ErrorKind::ReadFailure => 0x1300,
            ErrorKind::FunctionFailure => 0x1400,
            ErrorKind::WriteFailure => 0x1500,
            ErrorKind::SyntaxError => 0x2000,
            ErrorKind::Unauthorized => 0x2100,
            ErrorKind::Invalid => 0x2200,
            ErrorKind::ConfigureError => 0x2300,
            ErrorKind::AlreadyExists => 0x2400,
            ErrorKind::Unprepared => 0x2500,
        }
    }

    /// The wire code of this error.
    #[verifier::when_used_as_spec(spec_code)]
    pub fn code(self) -> (r: i32)
        ensures
            r == self.spec_code(),
    {
        match self {
            ErrorKind::ServerError => 0x0000,
            ErrorKind::ProtocolError => 0x000A,
            ErrorKind::AuthenticationError => 0x0100,
            ErrorKind::UnavailableException => 0x1000,
            ErrorKind::Overloaded => 0x1001,
            ErrorKind::IsBootstrapping => 0x1002,
            ErrorKind::TruncateError => 0x1003,
            ErrorKind::WriteTimeout => 0x1100,
            ErrorKind::ReadTimeout => 0x1200,
            ErrorKind::ReadFailure => 0x1300,
            ErrorKind::FunctionFailure => 0x1400,
            ErrorKind::WriteFailure => 0x1500,
            ErrorKind::SyntaxError => 0x2000,
            ErrorKind::Unauthorized => 0x2100,
            ErrorKind::Invalid => 0x2200,
            ErrorKind::ConfigureError => 0x2300,
            ErrorKind::AlreadyExists => 0x2400,
            ErrorKind::Unprepared => 0x2500,
        }
    }

    /// The error with wire code `code`, if the protocol defines one.
    pub fn from_code(code: i32) -> (r: Option<ErrorKind>)
        ensures
            r matches Some(k) ==> k.spec_code() == code,
            r is None ==> forall|k: ErrorKind| #[trigger] k.spec_code() != code,
    {
        match code {
            0x0000 => Some(ErrorKind::ServerError),
            0x000A => Some(ErrorKind::ProtocolError),
            0x0100 => Some(ErrorKind::AuthenticationError),
            0x1000 => Some(ErrorKind::UnavailableException),
            0x1001 => Some(ErrorKind::Overloaded),
            0x1002 => Some(ErrorKind::IsBootstrapping),
            0x1003 => Some(ErrorKind::TruncateError),
            0x1100 => Some(ErrorKind::WriteTimeout),
            0x1200 => Some(ErrorKind::ReadTimeout),
            0x1300 => Some(ErrorKind::ReadFailure),
            0x1400 => Some(ErrorKind::FunctionFailure),
            0x1500 => Some(ErrorKind::WriteFailure),
            0x2000 => Some(ErrorKind::SyntaxError),
            0x2100 => Some(ErrorKind::Unauthorized),
            0x2200 => Some(ErrorKind::Invalid),
            0x2300 => Some(ErrorKind::ConfigureError),
            0x2400 => Some(ErrorKind::AlreadyExists),
            0x2500 => Some(ErrorKind::Unprepared),
            _ => None,
        }
    }
}

/// Distinct error kinds have distinct wire codes.
pub proof fn lemma_error_codes_distinct(a: ErrorKind, b: ErrorKind)
    ensures
        a.spec_code() == b.spec_code() ==> a == b,
{
}

/// The error a server reported: its code, the kind when the protocol defines
/// the code, and the message that follows it.
pub struct CqlError {
    pub code: i32,
    pub kind: Option<ErrorKind>,
    pub message: String,
}

/// Row flag: one table specification applies to all columns.
pub const ROWS_GLOBAL_TABLES_SPEC: i32 = 0x0001;

/// Row flag: the result has more pages.
pub const ROWS_HAS_MORE_PAGES: i32 = 0x0002;

/// Row flag: no column metadata is present.
pub const ROWS_NO_METADATA: i32 = 0x0004;

/// The flags of a ROWS result.
#[derive(Debug, Clone, Copy, PartialEq, Eq, Structural)]
pub struct Flags {
    pub global_tables_spec: bool,
    pub has_more_pages: bool,
    pub no_metadata: bool,
}

impl Flags {
    /// The named flags of a rows flags field.
    pub open spec fn spec_from_i32(flags: i32) -> Flags {
        Flags {
            global_tables_spec: flags & ROWS_GLOBAL_TABLES_SPEC == ROWS_GLOBAL_TABLES_SPEC,
            has_more_pages: flags & ROWS_HAS_MORE_PAGES == ROWS_HAS_MORE_PAGES,
            no_metadata: flags & ROWS_NO_METADATA == ROWS_NO_METADATA,
        }
    }

    /// Reads the named flags out of a rows flags field.
    pub fn from_i32(flags: i32) -> (r: Flags)
        ensures
            r == Flags::spec_from_i32(flags),
    {
        Flags {
            global_tables_spec: flags & ROWS_GLOBAL_TABLES_SPEC == ROWS_GLOBAL_TABLES_SPEC,
            has_more_pages: flags & ROWS_HAS_MORE_PAGES == ROWS_HAS_MORE_PAGES,
            no_metadata: flags & ROWS_NO_METADATA == ROWS_NO_METADATA,
        }
    }

    pub fn has_more_pages(&self) -> (r: bool)
        ensures
            r == self.has_more_pages,
    {
        self.has_more_pages
    }
}

/// The number of columns of a ROWS result.
pub type ColumnsCount = i32;

/// The paging state of a ROWS result: the continuation token, if any, and
/// the offset just past the paging state.
pub struct PagingState {
    pub paging_state: Option<Vec<u8>>,
    pub end: usize,
}

impl PagingState {
    pub fn new(paging_state: Option<Vec<u8>>, end: usize) -> (r: PagingState)
        ensures
            r.paging_state == paging_state,
            r.end == end,
    {
        PagingState { paging_state, end }
    }

    pub open spec fn token(&self) -> Option<Seq<u8>> {
        match self.paging_state {
            Some(t) => Some(t@),
            None => None,
        }
    }
}

/// The paging state whose length field starts at `start` in `b`: a length
/// of -1 gives no token and ends 4 bytes on; a length `L >= 0` gives the
/// next `L` bytes as token and ends `4 + L` bytes on. `None` when the
/// region does not fit or the length is below -1.
pub open spec fn paging_state_at(b: Seq<u8>, start: int) -> Option<(Option<Seq<u8>>, int)> {
    if start < 0 || start + 4 > b.len() {
        None
    } else {
        let len = i32_at(b, start);
        if len == -1 {
            Some((None, start + 4))
        } else if 0 <= len && start + 4 + len <= b.len() {
            Some((Some(b.subrange(start + 4, start + 4 + len)), start + 4 + len))
        } else {
            None
        }
    }
}

/// A paging length of -1 means no continuation token, and the paging state
/// takes only its 4-byte length field.
pub proof fn lemma_paging_state_sentinel(b: Seq<u8>, start: int)
    requires
        0 <= start,
        start + 4 <= b.len(),
        i32_at(b, start) == -1,
    ensures
        paging_state_at(b, start) == Some((None::<Seq<u8>>, start + 4)),
{
}

/// A paging length `L >= 0` whose bytes are present gives those `L` bytes as
/// token, and the paging state takes `4 + L` bytes.
pub proof fn lemma_paging_state_token(b: Seq<u8>, start: int)
    requires
        0 <= start,
        start + 4 <= b.len(),
        0 <= i32_at(b, start),
        start + 4 + i32_at(b, start) <= b.len(),
    ensures
        paging_state_at(b, start) == Some(
            (
                Some(b.subrange(start + 4, start + 4 + i32_at(b, start))),
                start + 4 + i32_at(b, start),
            ),
        ),
{
}

/// Decodes the paging state whose length field starts at `start`.
pub fn decode_paging_state(buffer: &[u8], start: usize) -> (r: Result<PagingState, DecodeError>)
    ensures
        r is Ok <==> paging_state_at(buffer@, start as int) is Some,
        r matches Ok(p) ==> paging_state_at(buffer@, start as int) == Some((p.token(), p.end as int)),
{
    if start > buffer.len() || buffer.len() - start < 4 {
        return Err(DecodeError::Truncated { offset: start, needed: 4 });
    }
    let len = read_i32(buffer, start);
    if len == -1 {
        Ok(PagingState::new(None, start + 4))
    } else if len < 0 {
        Err(DecodeError::NegativeLength { offset: start })
    } else if buffer.len() - start - 4 < len as usize {
        Err(DecodeError::Truncated { offset: start + 4, needed: len as usize })
    } else {
        let end = start + 4 + len as usize;
        let token = vstd::slice::slice_to_vec(vstd::slice::slice_subrange(buffer, start + 4, end));
        Ok(PagingState::new(Some(token), end))
    }
}

/// The metadata that precedes the rows of a ROWS result.
pub struct Metadata {
    pub flags: Flags,
    pub columns_count: ColumnsCount,
    pub paging_state: PagingState,
}

impl Metadata {
    pub fn new(flags: Flags, columns_count: ColumnsCount, paging_state: PagingState) -> (r: Metadata)
        ensures
            r.flags == flags,
            r.columns_count == columns_count,
            r.paging_state == paging_state,
    {
        Metadata { flags, columns_count, paging_state }
    }
}


/// The signed 16-bit big-endian field at `pos`.
pub open spec fn i16_at(s: Seq<u8>, pos: int) -> int {
    let u = s[pos] * 256 + s[pos + 1];
    if u >= 0x8000 {
        u - 0x1_0000
    } else {
        u
    }
}

/// The body kind: the signed 32-bit field that opens the body at `off`.
pub open spec fn body_kind_at(b: Seq<u8>, off: int) -> Option<i32> {
    if off + 4 <= b.len() {
        Some(i32_at(b, off) as i32)
    } else {
        None
    }
}

/// Whether the frame is a RESULT whose body kind is `kind`.
pub open spec fn result_is_at(b: Seq<u8>, off: int, kind: i32) -> bool {
    b[4] == OPCODE_RESULT && body_kind_at(b, off) == Some(kind)
}

/// Whether the frame is an ERROR reporting the error `kind`.
pub open spec fn error_is_at(b: Seq<u8>, off: int, kind: ErrorKind) -> bool {
    b[4] == OPCODE_ERROR && body_kind_at(b, off) == Some(kind.spec_code())
}

/// An ERROR frame is classified as at most one error kind.
pub proof fn lemma_error_classification_exclusive(
    b: Seq<u8>,
    off: int,
    k1: ErrorKind,
    k2: ErrorKind,
)
    requires
        error_is_at(b, off, k1),
        error_is_at(b, off, k2),
    ensures
        k1 == k2,
{
    lemma_error_codes_distinct(k1, k2);
}

/// The message of an ERROR body at `off`: the bytes of the short string after
/// the error code.
pub open spec fn error_message_at(b: Seq<u8>, off: int) -> Option<Seq<u8>> {
    if off + 4 <= b.len() {
        short_string_bytes(b.subrange(off + 4, b.len() as int))
    } else {
        None
    }
}

/// The paging state region of a ROWS body at `off`: present only when the
/// result has more pages, else empty at `off + 12`. `None` when the flags and
/// columns count do not fit, or the paging state does not.
pub open spec fn paging_region_at(b: Seq<u8>, off: int, has_more_pages: bool) -> Option<
    (Option<Seq<u8>>, int),
> {
    if off + 12 > b.len() {
        None
    } else if has_more_pages {
        paging_state_at(b, off + 12)
    } else {
        Some((None, off + 12))
    }
}

/// The rows flags of a ROWS body at `off`.
pub open spec fn rows_flags_at(b: Seq<u8>, off: int) -> Flags {
    Flags::spec_from_i32(i32_at(b, off + 4) as i32)
}

/// A capability that turns a received buffer into its decompressed form.
pub trait Compression {
    fn decompress(&self, buffer: Vec<u8>) -> Vec<u8>;
}

/// Leaves buffers as they are.
pub struct Uncompressed;

impl Compression for Uncompressed {
    fn decompress(&self, buffer: Vec<u8>) -> Vec<u8> {
        buffer
    }
}

/// Read access to a received frame.
pub trait Frame {
    /// The bytes of the frame.
    spec fn frame_bytes(&self) -> Seq<u8>;

    /// The offset where the body begins.
    spec fn body_offset(&self) -> int;

    /// The header is parsed, and the body offset lies within the frame.
    spec fn well_formed(&self) -> bool;

    fn version(&self) -> (r: u8)
        requires
            self.well_formed(),
        ensures
            r == self.frame_bytes()[0],
    ;

    fn flags(&self) -> (r: &HeaderFlags)
        requires
            self.well_formed(),
        ensures
            r.describes(self.frame_bytes()),
            r.body_offset() == self.body_offset(),
    ;

    fn stream(&self) -> (r: i16)
        requires
            self.well_formed(),
        ensures
            r as int == i16_at(self.frame_bytes(), 2),
    ;

    fn opcode(&self) -> (r: u8)
        requires
            self.well_formed(),
        ensures
            r == self.frame_bytes()[4],
    ;

    /// The declared body length, read as an unsigned 32-bit number.
    fn length(&self) -> (r: usize)
        requires
            self.well_formed(),
        ensures
            r as int == be_uint(self.frame_bytes().subrange(5, 9)),
    ;

    fn body(&self) -> (r: &[u8])
        requires
            self.well_formed(),
        ensures
            r@ == self.frame_bytes().subrange(self.body_offset(), self.frame_bytes().len() as int),
    ;

    /// The offset `padding` bytes into the body.
    fn body_start(&self, padding: usize) -> (r: usize)
        requires
            self.well_formed(),
            self.body_offset() + padding <= usize::MAX,
        ensures
            r == self.body_offset() + padding,
    ;

    fn body_kind(&self) -> (r: Result<i32, DecodeError>)
        requires
            self.well_formed(),
        ensures
            r is Ok <==> body_kind_at(self.frame_bytes(), self.body_offset()) is Some,
            r matches Ok(k) ==> body_kind_at(self.frame_bytes(), self.body_offset()) == Some(k),
    ;

    fn is_void(&self) -> (r: bool)
        requires
            self.well_formed(),
        ensures
            r == result_is_at(self.frame_bytes(), self.body_offset(), RESULT_VOID),
    ;

    fn is_rows(&self) -> (r: bool)
        requires
            self.well_formed(),
        ensures
            r == result_is_at(self.frame_bytes(), self.body_offset(), RESULT_ROWS),
    ;

    fn is_error(&self) -> (r: bool)
        requires
            self.well_formed(),
        ensures
            r == (self.frame_bytes()[4] == OPCODE_ERROR),
    ;

    /// The error an ERROR body reports: code, kind and message.
    fn get_error(&self) -> (r: Result<CqlError, DecodeError>)
        requires
            self.well_formed(),
        ensures
            r is Ok <==> (error_message_at(self.frame_bytes(), self.body_offset()) is Some
                && valid_utf8(error_message_at(self.frame_bytes(), self.body_offset()).unwrap())),
            r matches Ok(e) ==> {
                &&& body_kind_at(self.frame_bytes(), self.body_offset()) == Some(e.code)
                &&& (e.kind matches Some(k) ==> k.spec_code() == e.code)
                &&& (e.kind is None ==> forall|k: ErrorKind| #[trigger] k.spec_code() != e.code)
                &&& e.message@ == decode_utf8(
                    error_message_at(self.frame_bytes(), self.body_offset()).unwrap(),
                )
            },
    ;

    /// Whether this is an ERROR frame reporting `kind`.
    fn is_error_kind(&self, kind: ErrorKind) -> (r: bool)
        requires
            self.well_formed(),
        ensures
            r == error_is_at(self.frame_bytes(), self.body_offset(), kind),
    ;

    fn is_unprepared(&self) -> (r: bool)
        requires
            self.well_formed(),
        ensures
            r == error_is_at(self.frame_bytes(), self.body_offset(), ErrorKind::Unprepared),
    ;

    fn is_already_exists(&self) -> (r: bool)
        requires
            self.well_formed(),
        ensures
            r == error_is_at(self.frame_bytes(), self.body_offset(), ErrorKind::AlreadyExists),
    ;

    fn is_configure_error(&self) -> (r: bool)
        requires
            self.well_formed(),
        ensures
            r == error_is_at(self.frame_bytes(), self.body_offset(), ErrorKind::ConfigureError),
    ;

    fn is_invalid(&self) -> (r: bool)
        requires
            self.well_formed(),
        ensures
            r == error_is_at(self.frame_bytes(), self.body_offset(), ErrorKind::Invalid),
    ;

    fn is_unauthorized(&self) -> (r: bool)
        requires
            self.well_formed(),
        ensures
            r == error_is_at(self.frame_bytes(), self.body_offset(), ErrorKind::Unauthorized),
    ;

    fn is_syntax_error(&self) -> (r: bool)
        requires
            self.well_formed(),
        ensures
            r == error_is_at(self.frame_bytes(), self.body_offset(), ErrorKind::SyntaxError),
    ;

    fn is_write_failure(&self) -> (r: bool)
        requires
            self.well_formed(),
        ensures
            r == error_is_at(self.frame_bytes(), self.body_offset(), ErrorKind::WriteFailure),
    ;

    fn is_function_failure(&self) -> (r: bool)
        requires
            self.well_formed(),
        ensures
            r == error_is_at(self.frame_bytes(), self.body_offset(), ErrorKind::FunctionFailure),
    ;

    fn is_read_failure(&self) -> (r: bool)
        requires
            self.well_formed(),
        ensures
            r == error_is_at(self.frame_bytes(), self.body_offset(), ErrorKind::ReadFailure),
    ;

    fn is_read_timeout(&self) -> (r: bool)
        requires
            self.well_formed(),
        ensures
            r == error_is_at(self.frame_bytes(), self.body_offset(), ErrorKind::ReadTimeout),
    ;

    fn is_write_timeout(&self) -> (r: bool)
        requires
            self.well_formed(),
        ensures
            r == error_is_at(self.frame_bytes(), self.body_offset(), ErrorKind::WriteTimeout),
    ;

    fn is_truncate_error(&self) -> (r: bool)
        requires
            self.well_formed(),
        ensures
            r == error_is_at(self.frame_bytes(), self.body_offset(), ErrorKind::TruncateError),
    ;

    fn is_boostrapping(&self) -> (r: bool)
        requires
            self.well_formed(),
        ensures
            r == error_is_at(self.frame_bytes(), self.body_offset(), ErrorKind::IsBootstrapping),
    ;

    fn is_overloaded(&self) -> (r: bool)
        requires
            self.well_formed(),
        ensures
            r == error_is_at(self.frame_bytes(), self.body_offset(), ErrorKind::Overloaded),
    ;

    fn is_unavailable_exception(&self) -> (r: bool)
        requires
            self.well_formed(),
        ensures
            r == error_is_at(self.frame_bytes(), self.body_offset(), ErrorKind::UnavailableException),
    ;

    fn is_authentication_error(&self) -> (r: bool)
        requires
            self.well_formed(),
        ensures
            r == error_is_at(self.frame_bytes(), self.body_offset(), ErrorKind::AuthenticationError),
    ;

    fn is_protocol_error(&self) -> (r: bool)
        requires
            self.well_formed(),
        ensures
            r == error_is_at(self.frame_bytes(), self.body_offset(), ErrorKind::ProtocolError),
    ;

    fn is_server_error(&self) -> (r: bool)
        requires
            self.well_formed(),
        ensures
            r == error_is_at(self.frame_bytes(), self.body_offset(), ErrorKind::ServerError),
    ;

    fn rows_flags(&self) -> (r: Result<Flags, DecodeError>)
        requires
            self.well_formed(),
        ensures
            r is Ok <==> self.body_offset() + 8 <= self.frame_bytes().len(),
            r matches Ok(f) ==> f == rows_flags_at(self.frame_bytes(), self.body_offset()),
    ;

    fn columns_count(&self) -> (r: Result<ColumnsCount, DecodeError>)
        requires
            self.well_formed(),
        ensures
            r is Ok <==> self.body_offset() + 12 <= self.frame_bytes().len(),
            r matches Ok(c) ==> c == i32_at(self.frame_bytes(), self.body_offset() + 8),
    ;

    fn paging_state(&self, has_more_pages: bool) -> (r: Result<PagingState, DecodeError>)
        requires
            self.well_formed(),
        ensures
            r is Ok <==> paging_region_at(self.frame_bytes(), self.body_offset(), has_more_pages) is Some,
            r matches Ok(p) ==> paging_region_at(self.frame_bytes(), self.body_offset(), has_more_pages)
                == Some((p.token(), p.end as int)),
    ;

    fn metadata(&self) -> (r: Result<Metadata, DecodeError>)
        requires
            self.well_formed(),
        ensures
            r is Ok <==> paging_region_at(
                self.frame_bytes(),
                self.body_offset(),
                rows_flags_at(self.frame_bytes(), self.body_offset()).has_more_pages,
            ) is Some,
            r matches Ok(m) ==> {
                &&& m.flags == rows_flags_at(self.frame_bytes(), self.body_offset())
                &&& m.columns_count == i32_at(self.frame_bytes(), self.body_offset() + 8)
                &&& paging_region_at(self.frame_bytes(), self.body_offset(), m.flags.has_more_pages)
                    == Some((m.paging_state.token(), m.paging_state.end as int))
            },
    ;
}


/// A received frame, decompressed, with its parsed header flags.
pub struct Decoder {
    buffer: Vec<u8>,
    header_flags: HeaderFlags,
}

impl Decoder {
    /// Parses the header of a frame that is already decompressed.
    pub fn from_buffer(buffer: Vec<u8>) -> (r: Result<Decoder, DecodeError>)
        ensures
            r is Ok <==> body_start_of(buffer@) is Some,
            r matches Ok(d) ==> d.well_formed() && d.frame_bytes() == buffer@,
    {
        match HeaderFlags::new(buffer.as_slice()) {
            Ok(header_flags) => {
                proof {
                    let b = buffer@;
                    if flag_set(b[1], WARNING) {
                        lemma_string_list_fits(b.subrange(after_tracing(b), b.len() as int));
                    }
                }
                Ok(Decoder { buffer, header_flags })
            },
            Err(e) => Err(e),
        }
    }

    /// Decompresses a received buffer, then parses its header.
    pub fn new<C: Compression>(buffer: Vec<u8>, decompressor: C) -> (r: Result<Decoder, DecodeError>)
        ensures
            r matches Ok(d) ==> d.well_formed(),
    {
        let buffer = decompressor.decompress(buffer);
        Decoder::from_buffer(buffer)
    }

    pub fn buffer_as_ref(&self) -> (r: &Vec<u8>)
        ensures
            r@ == self.frame_bytes(),
    {
        &self.buffer
    }

    /// The buffer, for reuse by the caller; the parsed header is kept as it is.
    pub fn buffer_as_mut(&mut self) -> (r: &mut Vec<u8>)
        ensures
            r@ == old(self).frame_bytes(),
            final(self).frame_bytes() == final(r)@,
            final(self).body_offset() == old(self).body_offset(),
    {
        &mut self.buffer
    }

    pub fn into_buffer(self) -> (r: Vec<u8>)
        ensures
            r@ == self.frame_bytes(),
    {
        self.buffer
    }
}

impl Frame for Decoder {
    closed spec fn frame_bytes(&self) -> Seq<u8> {
        self.buffer@
    }

    closed spec fn body_offset(&self) -> int {
        self.header_flags.body_offset()
    }

    closed spec fn well_formed(&self) -> bool {
        &&& self.header_flags.describes(self.buffer@)
        &&& self.header_flags.body_offset() <= self.buffer@.len()
    }

    fn version(&self) -> (r: u8) {
        self.buffer[0]
    }

    fn flags(&self) -> (r: &HeaderFlags) {
        &self.header_flags
    }

    fn stream(&self) -> (r: i16) {
        let u = read_u16(self.buffer.as_slice(), 2);
        if u >= 0x8000 {
            (u as i32 - 0x1_0000) as i16
        } else {
            u as i16
        }
    }

    fn opcode(&self) -> (r: u8) {
        self.buffer[4]
    }

    fn length(&self) -> (r: usize) {
        let field = vstd::slice::slice_subrange(self.buffer.as_slice(), 5, 9);
        proof {
            assert(field@.take(4) =~= field@);
            crate::bytes::lemma_be_uint_bound(field@);
            reveal_with_fuel(crate::bytes::pow256, 5);
        }
        read_be(field, 4) as usize
    }

    fn body(&self) -> (r: &[u8]) {
        vstd::slice::slice_subrange(
            self.buffer.as_slice(),
            self.header_flags.body_start(),
            self.buffer.len(),
        )
    }

    fn body_start(&self, padding: usize) -> (r: usize) {
        self.header_flags.body_start() + padding
    }

    fn body_kind(&self) -> (r: Result<i32, DecodeError>) {
        let off = self.header_flags.body_start();
        if self.buffer.len() - off < 4 {
            Err(DecodeError::Truncated { offset: off, needed: 4 })
        } else {
            Ok(read_i32(self.buffer.as_slice(), off))
        }
    }

    fn is_void(&self) -> (r: bool) {
        self.opcode() == OPCODE_RESULT && match self.body_kind() {
            Ok(k) => k == RESULT_VOID,
            Err(_) => false,
        }
    }

    fn is_rows(&self) -> (r: bool) {
        self.opcode() == OPCODE_RESULT && match self.body_kind() {
            Ok(k) => k == RESULT_ROWS,
            Err(_) => false,
        }
    }

    fn is_error(&self) -> (r: bool) {
        self.opcode() == OPCODE_ERROR
    }

    fn get_error(&self) -> (r: Result<CqlError, DecodeError>) {
        let code = match self.body_kind() {
            Ok(k) => k,
            Err(e) => {
                return Err(e);
            },
        };
        let off = self.header_flags.body_start();
        if self.buffer.len() - off < 4 {
            return Err(DecodeError::Truncated { offset: off, needed: 4 });
        }
        let rest = vstd::slice::slice_subrange(self.buffer.as_slice(), off + 4, self.buffer.len());
        match string(rest) {
            Ok(message) => Ok(CqlError { code, kind: ErrorKind::from_code(code), message }),
            Err(e) => Err(e),
        }
    }

    fn is_error_kind(&self, kind: ErrorKind) -> (r: bool) {
        self.opcode() == OPCODE_ERROR && match self.body_kind() {
            Ok(k) => k == kind.code(),
            Err(_) => false,
        }
    }

    fn is_unprepared(&self) -> (r: bool) {
        self.is_error_kind(ErrorKind::Unprepared)
    }

    fn is_already_exists(&self) -> (r: bool) {
        self.is_error_kind(ErrorKind::AlreadyExists)
    }

    fn is_configure_error(&self) -> (r: bool) {
        self.is_error_kind(ErrorKind::ConfigureError)
    }

    fn is_invalid(&self) -> (r: bool) {
        self.is_error_kind(ErrorKind::Invalid)
    }

    fn is_unauthorized(&self) -> (r: bool) {
        self.is_error_kind(ErrorKind::Unauthorized)
    }

    fn is_syntax_error(&self) -> (r: bool) {
        self.is_error_kind(ErrorKind::SyntaxError)
    }

    fn is_write_failure(&self) -> (r: bool) {
        self.is_error_kind(ErrorKind::WriteFailure)
    }

    fn is_function_failure(&self) -> (r: bool) {
        self.is_error_kind(ErrorKind::FunctionFailure)
    }

    fn is_read_failure(&self) -> (r: bool) {
        self.is_error_kind(ErrorKind::ReadFailure)
    }

    fn is_read_timeout(&self) -> (r: bool) {
        self.is_error_kind(ErrorKind::ReadTimeout)
    }

    fn is_write_timeout(&self) -> (r: bool) {
        self.is_error_kind(ErrorKind::WriteTimeout)
    }

    fn is_truncate_error(&self) -> (r: bool) {
        self.is_error_kind(ErrorKind::TruncateError)
    }

    fn is_boostrapping(&self) -> (r: bool) {
        self.is_error_kind(ErrorKind::IsBootstrapping)
    }

    fn is_overloaded(&self) -> (r: bool) {
        self.is_error_kind(ErrorKind::Overloaded)
    }

    fn is_unavailable_exception(&self) -> (r: bool) {
        self.is_error_kind(ErrorKind::UnavailableException)
    }

    fn is_authentication_error(&self) -> (r: bool) {
        self.is_error_kind(ErrorKind::AuthenticationError)
    }

    fn is_protocol_error(&self) -> (r: bool) {
        self.is_error_kind(ErrorKind::ProtocolError)
    }

    fn is_server_error(&self) -> (r: bool) {
        self.is_error_kind(ErrorKind::ServerError)
    }

    fn rows_flags(&self) -> (r: Result<Flags, DecodeError>) {
        let off = self.header_flags.body_start();
        if self.buffer.len() - off < 8 {
            Err(DecodeError::Truncated { offset: off, needed: 8 })
        } else {
            Ok(Flags::from_i32(read_i32(self.buffer.as_slice(), off + 4)))
        }
    }

    fn columns_count(&self) -> (r: Result<ColumnsCount, DecodeError>) {
        let off = self.header_flags.body_start();
        if self.buffer.len() - off < 12 {
            Err(DecodeError::Truncated { offset: off, needed: 12 })
        } else {
            Ok(read_i32(self.buffer.as_slice(), off + 8))
        }
    }

    fn paging_state(&self, has_more_pages: bool) -> (r: Result<PagingState, DecodeError>) {
        let off = self.header_flags.body_start();
        if self.buffer.len() - off < 12 {
            Err(DecodeError::Truncated { offset: off, needed: 12 })
        } else if has_more_pages {
            decode_paging_state(self.buffer.as_slice(), off + 12)
        } else {
            Ok(PagingState::new(None, off + 12))
        }
    }

    fn metadata(&self) -> (r: Result<Metadata, DecodeError>) {
        let flags = match self.rows_flags() {
            Ok(f) => f,
            Err(e) => {
                return Err(e);
            },
        };
        let columns_count = match self.columns_count() {
            Ok(c) => c,
            Err(e) => {
                return Err(e);
            },
        };
        match self.paging_state(flags.has_more_pages()) {
            Ok(p) => Ok(Metadata::new(flags, columns_count, p)),
            Err(e) => Err(e),
        }
    }
}

} // verus!
