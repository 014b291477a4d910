//! Decoders: the sources and events read back from a stream in either wire
//! format.
use vstd::prelude::*;
use vstd::utf8::{valid_utf8, decode_utf8};

use crate::binary_format::{
    spec_open_binary, open_binary_panics, spec_next_binary, read_header, read_section_header,
    decode_metadata_payload, metadata_payload_panics, decode_record, meta_entries_panic,
    spec_read_header, spec_read_section,
};
use crate::bytes::push_all;
use crate::codec::Format;
use crate::error::{Error, Fault, IoError, IoErrorKind, reports, truncated_input};
use crate::event::{Event, Source, SourceModel};
use crate::text_meta::{first_index_of, lemma_first_index_of, check_header_line, parse_metadata_line};
use crate::text_event::parse_trimmed_line;
use crate::text_stream::{
    TextFault, reports_text_fault, spec_text_item, spec_open_text, line_len, lemma_line_len,
};
use crate::utf8::string_from_utf8;
use crate::text_num::chars_of;

verus! {

/// Why reading an event from a stream failed: a binary record fault or a
/// text line fault.
pub enum ItemFault {
    Record(Fault),
    Line(TextFault),
}

/// The error reports the given fault.
pub open spec fn reports_item(e: Error, f: ItemFault) -> bool {
    match f {
        ItemFault::Record(r) => reports(e, r),
        ItemFault::Line(l) => reports_text_fault(e, l),
    }
}

/// One step of reading events from the rest of a stream, with the number of
/// bytes it consumes; `None` at the end of the input.
pub open spec fn spec_next_item(f: Format, rem: Seq<u8>) -> Option<(Result<Event, ItemFault>, nat)> {
    match f {
        Format::Binary => match spec_next_binary(rem) {
            None => None,
            Some((Ok(e), n)) => Some((Ok(e), n)),
            Some((Err(ft), n)) => Some((Err(ItemFault::Record(ft)), n)),
        },
        Format::Text => if rem.len() == 0 {
            None
        } else {
            let n = line_len(rem);
            Some(
                (
                    match spec_text_item(rem.take(n as int)) {
                        Ok(e) => Ok(e),
                        Err(t) => Err(ItemFault::Line(t)),
                    },
                    n,
                ),
            )
        },
    }
}

/// A step consumes at least one byte and no more than there are.
pub proof fn lemma_next_item_len(f: Format, rem: Seq<u8>)
    ensures
        spec_next_item(f, rem) is None <==> rem.len() == 0,
        spec_next_item(f, rem) matches Some((_, n)) ==> 1 <= n <= rem.len(),
{
    lemma_line_len(rem);
}

/// Everything that reading events from the rest of a stream yields, until
/// the end of the input.
pub open spec fn spec_items(f: Format, rem: Seq<u8>) -> Seq<Result<Event, ItemFault>>
    decreases rem.len(),
{
    match spec_next_item(f, rem) {
        None => seq![],
        Some((item, n)) => {
            proof {
                lemma_next_item_len(f, rem);
            }
            seq![item] + spec_items(f, rem.skip(n as int))
        },
    }
}

/// The outcome of reading the preamble of a stream.
pub open spec fn spec_open(f: Format, d: Seq<u8>) -> Result<(Seq<SourceModel>, nat), Fault> {
    match f {
        Format::Binary => spec_open_binary(d),
        Format::Text => spec_open_text(d),
    }
}

/// Reading the preamble reaches a binary metadata entry that holds only an
/// id byte.
pub open spec fn open_panics(f: Format, d: Seq<u8>) -> bool {
    match f {
        Format::Binary => open_binary_panics(d),
        Format::Text => false,
    }
}

/// Whether reading the preamble of a binary stream reaches a metadata entry
/// that holds only an id byte.
pub fn binary_preamble_panics(input: &[u8]) -> (r: bool)
    ensures
        r == open_binary_panics(input@),
{
    if read_header(input).is_err() {
        return false;
    }
    let n = match read_section_header(&input[8..input.len()]) {
        Ok(n) => n,
        Err(_) => {
            return false;
        },
    };
    assert(input@.subrange(8, input@.len() as int) =~= input@.skip(8));
    if input.len() - 12 < n {
        return false;
    }
    let r = metadata_payload_panics(&input[12..12 + n]);
    assert(input@.subrange(12, 12 + n) =~= input@.subrange(12, 12 + n as int));
    r
}

/// The error for a line of input that is not valid UTF-8.
fn invalid_text() -> (e: Error)
    ensures
        reports(e, Fault::InvalidText),
{
    Error::Io(
        IoError {
            kind: IoErrorKind::InvalidData,
            message: "stream did not contain valid UTF-8".to_owned(),
        },
    )
}

/// The position just after the next line of input starting at `from`.
fn line_end(input: &[u8], from: usize) -> (r: usize)
    requires
        from <= input@.len(),
    ensures
        r == from + line_len(input@.skip(from as int)),
        r <= input@.len(),
{
    let mut i = from;
    while i < input.len()
        invariant
            from <= i <= input@.len(),
            forall|j: int| from <= j < i ==> input@[j] != 10u8,
        decreases input.len() - i,
    {
        if input[i] == 10u8 {
            proof {
                let s = input@.skip(from as int);
                lemma_first_index_of(s, 10u8);
                assert(s[i - from] == 10u8);
                match first_index_of(s, 10u8) {
                    Some(k) => {
                        assert(k == i - from) by {
                            if k < i - from {
                                assert(input@[from + k] == 10u8);
                            }
                        }
                    },
                    None => {},
                }
            }
            return i + 1;
        }
        i = i + 1;
    }
    proof {
        let s = input@.skip(from as int);
        lemma_first_index_of(s, 10u8);
        if first_index_of(s, 10u8) is Some {
            let k = first_index_of(s, 10u8)->0;
            assert(input@[from + k] == 10u8);
        }
    }
    input.len()
}

/// The input of a decoder, how far it has been read, and the sources its
/// preamble declared.
struct DecoderState {
    input: Vec<u8>,
    pos: usize,
    sources: Vec<Source>,
}

impl DecoderState {
    #[verifier::type_invariant]
    spec fn inv(&self) -> bool {
        self.pos <= self.input@.len()
    }

    spec fn remaining(&self) -> Seq<u8> {
        self.input@.skip(self.pos as int)
    }

    fn open(input: &[u8], format: Format) -> (r: Result<DecoderState, Error>)
        requires
            !open_panics(format, input@),
        ensures
            match spec_open(format, input@) {
                Ok((ss, n)) => r matches Ok(d) && d.sources.deep_view() == ss
                    && d.remaining() == input@.skip(n as int),
                Err(f) => r matches Err(e) && reports(e, f),
            },
    {
        let data = vstd::slice::slice_to_vec(input);
        match format {
            Format::Binary => {
                read_header(input)?;
                let n = read_section_header(&input[8..input.len()])?;
                assert(input@.subrange(8, input@.len() as int) =~= input@.skip(8));
                if input.len() - 12 < n {
                    return Err(truncated_input());
                }
                let sources = decode_metadata_payload(&input[12..12 + n])?;
                let d = DecoderState { input: data, pos: 12 + n, sources };
                Ok(d)
            },
            Format::Text => {
                let n1 = line_end(input, 0);
                assert(input@.skip(0) =~= input@);
                assert(input@.subrange(0, n1 as int) =~= input@.take(n1 as int));
                let l1 = match string_from_utf8(&input[0..n1]) {
                    Some(s) => s,
                    None => {
                        return Err(invalid_text());
                    },
                };
                check_header_line(l1.as_str())?;
                let n2 = line_end(input, n1);
                let ghost d2 = input@.skip(n1 as int);
                assert(input@.subrange(n1 as int, n2 as int) =~= d2.take(n2 - n1));
                let l2 = match string_from_utf8(&input[n1..n2]) {
                    Some(s) => s,
                    None => {
                        return Err(invalid_text());
                    },
                };
                let sources = parse_metadata_line(l2.as_str())?;
                let d = DecoderState { input: data, pos: n2, sources };
                assert(d.remaining() =~= input@.skip(n2 as int));
                Ok(d)
            },
        }
    }

    fn fed(self, more: &[u8]) -> (r: DecoderState)
        ensures
            r.sources == self.sources,
            r.remaining() == self.remaining() + more@,
    {
        proof {
            use_type_invariant(&self);
        }
        let DecoderState { input, pos, sources } = self;
        let mut rest = vstd::slice::slice_to_vec(&input.as_slice()[pos..input.len()]);
        push_all(&mut rest, more);
        let r = DecoderState { input: rest, pos: 0, sources };
        assert(r.remaining() =~= r.input@);
        r
    }

    fn empty() -> (r: DecoderState)
        ensures
            r.remaining() == Seq::<u8>::empty(),
    {
        let r = DecoderState { input: Vec::new(), pos: 0, sources: Vec::new() };
        assert(r.remaining() =~= Seq::<u8>::empty());
        r
    }

    fn item_ready(&self, format: Format) -> (r: bool)
        ensures
            r == item_complete(format, self.remaining()),
    {
        proof {
            use_type_invariant(self);
        }
        let pos = self.pos;
        match format {
            Format::Binary => self.input.len() - pos >= 26,
            Format::Text => {
                let end = line_end(self.input.as_slice(), pos);
                let ghost rem = self.remaining();
                proof {
                    lemma_first_index_of(rem, 10u8);
                    if first_index_of(rem, 10u8) is Some {
                        let k = first_index_of(rem, 10u8)->0;
                        assert(self.input@[pos + k] == rem[k as int]);
                    } else if end > pos {
                        assert(self.input@[end - 1] == rem[end - 1 - pos]);
                    }
                }
                end > pos && self.input[end - 1] == 10u8
            },
        }
    }

    fn next(&mut self, format: Format) -> (r: Option<Result<Event, Error>>)
        ensures
            final(self).sources == old(self).sources,
            match spec_next_item(format, old(self).remaining()) {
                None => r is None && final(self).remaining() == old(self).remaining(),
                Some((item, n)) => final(self).remaining() == old(self).remaining().skip(n as int)
                    && match item {
                    Ok(e) => r == Some(Ok::<Event, Error>(e)),
                    Err(f) => r matches Some(Err(e)) && reports_item(e, f),
                },
            },
    {
        proof {
            use_type_invariant(&*self);
        }
        let len = self.input.len();
        let pos = self.pos;
        let ghost rem = self.input@.skip(pos as int);
        if pos == len {
            return None;
        }
        match format {
            Format::Binary => {
                if len - pos < 26 {
                    self.pos = len;
                    assert(rem.skip(rem.len() as int) =~= self.input@.skip(len as int));
                    return Some(Err(truncated_input()));
                }
                let item = decode_record(&self.input.as_slice()[pos..pos + 26]);
                assert(self.input@.subrange(pos as int, pos + 26) =~= rem.subrange(0, 26));
                self.pos = pos + 26;
                assert(rem.skip(26) =~= self.input@.skip(pos + 26));
                Some(item)
            },
            Format::Text => {
                let end = line_end(self.input.as_slice(), pos);
                assert(self.input@.subrange(pos as int, end as int) =~= rem.take(end - pos));
                let line = string_from_utf8(&self.input.as_slice()[pos..end]);
                self.pos = end;
                assert(rem.skip(end - pos) =~= self.input@.skip(end as int));
                match line {
                    None => Some(Err(invalid_text())),
                    Some(s) => Some(parse_trimmed_line(s.as_str())),
                }
            },
        }
    }
}

} // verus!

verus! {

/// A decoder for the binary format over an input held in memory. The header
/// and metadata are read on construction; then each call of `next` reads
/// one 26-byte record, until the end of the input.
pub struct BinaryDecoder {
    state: DecoderState,
}

impl BinaryDecoder {
    /// The input not read yet.
    pub closed spec fn remaining(&self) -> Seq<u8> {
        self.state.remaining()
    }

    /// The sources that the metadata declared.
    pub closed spec fn declared(&self) -> Seq<SourceModel> {
        self.state.sources.deep_view()
    }

    /// Reads the header and metadata of a binary stream. Input that ends too
    /// early is an unexpected end of input; anything the format does not
    /// allow is a parse error.
    pub fn new(input: &[u8]) -> (r: Result<Self, Error>)
        requires
            !open_binary_panics(input@),
        ensures
            match spec_open_binary(input@) {
                Ok((ss, n)) => r matches Ok(d) && d.declared() == ss && d.remaining() == input@.skip(
                    n as int,
                ),
                Err(f) => r matches Err(e) && reports(e, f),
            },
    {
        let state = DecoderState::open(input, Format::Binary)?;
        Ok(BinaryDecoder { state })
    }

    /// The sources that the metadata declared.
    pub fn sources(&self) -> (r: &[Source])
        ensures
            r.deep_view() == self.declared(),
    {
        self.state.sources.as_slice()
    }

    /// Reads the next event: `None` at the end of the input (and at every
    /// later call); a record cut short is an unexpected end of input that
    /// consumes the rest; a record whose type byte names no kind is a parse
    /// error, and reading goes on after it.
    pub fn next(&mut self) -> (r: Option<Result<Event, Error>>)
        ensures
            final(self).declared() == old(self).declared(),
            match spec_next_binary(old(self).remaining()) {
                None => r is None && final(self).remaining() == old(self).remaining(),
                Some((item, n)) => final(self).remaining() == old(self).remaining().skip(n as int)
                    && match item {
                    Ok(e) => r == Some(Ok::<Event, Error>(e)),
                    Err(f) => r matches Some(Err(e)) && reports(e, f),
                },
            },
    {
        self.state.next(Format::Binary)
    }

    /// A demultiplexer over the rest of this stream.
    pub fn demux(self) -> (r: Demux)
        ensures
            r.wire_format() == Format::Binary,
            r.remaining() == self.remaining(),
            r.declared() == self.declared(),
            forall|id: u8| r.route(id) is None,
    {
        Demux::over(Format::Binary, self.state)
    }
}

/// A decoder for the text format over an input held in memory. The header
/// and metadata lines are read on construction; then each call of `next`
/// reads one line, until the end of the input.
pub struct TextDecoder {
    state: DecoderState,
}

impl TextDecoder {
    /// The input not read yet.
    pub closed spec fn remaining(&self) -> Seq<u8> {
        self.state.remaining()
    }

    /// The sources that the metadata line declared.
    pub closed spec fn declared(&self) -> Seq<SourceModel> {
        self.state.sources.deep_view()
    }

    /// Reads the header and metadata lines of a text stream. A line that is
    /// not valid UTF-8 is an invalid-data error; a header or metadata line of
    /// the wrong form is a parse error.
    pub fn new(input: &[u8]) -> (r: Result<Self, Error>)
        ensures
            match spec_open_text(input@) {
                Ok((ss, n)) => r matches Ok(d) && d.declared() == ss && d.remaining() == input@.skip(
                    n as int,
                ),
                Err(f) => r matches Err(e) && reports(e, f),
            },
    {
        let state = DecoderState::open(input, Format::Text)?;
        Ok(TextDecoder { state })
    }

    /// The sources that the metadata line declared.
    pub fn sources(&self) -> (r: &[Source])
        ensures
            r.deep_view() == self.declared(),
    {
        self.state.sources.as_slice()
    }

    /// Reads the next line as an event: `None` at the end of the input (and
    /// at every later call); a line that is not valid UTF-8 or does not parse
    /// is an error, and reading goes on with the next line.
    pub fn next(&mut self) -> (r: Option<Result<Event, Error>>)
        ensures
            final(self).declared() == old(self).declared(),
            match spec_next_item(Format::Text, old(self).remaining()) {
                None => r is None && final(self).remaining() == old(self).remaining(),
                Some((item, n)) => final(self).remaining() == old(self).remaining().skip(n as int)
                    && match item {
                    Ok(e) => r == Some(Ok::<Event, Error>(e)),
                    Err(f) => r matches Some(Err(e)) && reports_item(e, f),
                },
            },
    {
        self.state.next(Format::Text)
    }

    /// A demultiplexer over the rest of this stream.
    pub fn demux(self) -> (r: Demux)
        ensures
            r.wire_format() == Format::Text,
            r.remaining() == self.remaining(),
            r.declared() == self.declared(),
            forall|id: u8| r.route(id) is None,
    {
        Demux::over(Format::Text, self.state)
    }
}

/// A decoder for either wire format, chosen at construction.
pub struct Decoder {
    format: Format,
    state: DecoderState,
}

impl Decoder {
    /// The wire format read.
    pub closed spec fn wire_format(&self) -> Format {
        self.format
    }

    /// The input not read yet.
    pub closed spec fn remaining(&self) -> Seq<u8> {
        self.state.remaining()
    }

    /// The sources that the preamble declared.
    pub closed spec fn declared(&self) -> Seq<SourceModel> {
        self.state.sources.deep_view()
    }

    /// Reads the preamble of a stream in the given format.
    pub fn new(input: &[u8], format: Format) -> (r: Result<Self, Error>)
        requires
            !open_panics(format, input@),
        ensures
            match spec_open(format, input@) {
                Ok((ss, n)) => r matches Ok(d) && d.wire_format() == format && d.declared() == ss
                    && d.remaining() == input@.skip(n as int),
                Err(f) => r matches Err(e) && reports(e, f),
            },
    {
        let state = DecoderState::open(input, format)?;
        Ok(Decoder { format, state })
    }

    /// The sources that the preamble declared.
    pub fn sources(&self) -> (r: &[Source])
        ensures
            r.deep_view() == self.declared(),
    {
        self.state.sources.as_slice()
    }

    /// Reads the next event: `None` at the end of the input (and at every
    /// later call); errors do not end the reading.
    pub fn next(&mut self) -> (r: Option<Result<Event, Error>>)
        ensures
            final(self).wire_format() == old(self).wire_format(),
            final(self).declared() == old(self).declared(),
            match spec_next_item(old(self).wire_format(), old(self).remaining()) {
                None => r is None && final(self).remaining() == old(self).remaining(),
                Some((item, n)) => final(self).remaining() == old(self).remaining().skip(n as int)
                    && match item {
                    Ok(e) => r == Some(Ok::<Event, Error>(e)),
                    Err(f) => r matches Some(Err(e)) && reports_item(e, f),
                },
            },
    {
        self.state.next(self.format)
    }

    /// Appends input that has arrived since construction or the last call;
    /// what has been read stays read (and is let go). For decoding a live
    /// stream piece by piece.
    pub fn feed(&mut self, more: &[u8])
        ensures
            final(self).wire_format() == old(self).wire_format(),
            final(self).declared() == old(self).declared(),
            final(self).remaining() == old(self).remaining() + more@,
    {
        let mut state = DecoderState::empty();
        std::mem::swap(&mut state, &mut self.state);
        self.state = state.fed(more);
    }

    /// Whether the input held so far has the whole next item (a full record,
    /// or a line with its line feed), so that `next` reads the same item
    /// whatever input arrives later.
    pub fn item_ready(&self) -> (r: bool)
        ensures
            r == item_complete(self.wire_format(), self.remaining()),
    {
        self.state.item_ready(self.format)
    }

    /// The format that a file's name announces: `.ctxp-txt` and `.ctxp.txt`
    /// are text, `.ctxp` is binary. A path without a file name in UTF-8 (the
    /// root, say) is an invalid file name; any other name has an invalid
    /// extension. The file name is the path's last component.
    pub fn detect_format(path: &str) -> (r: Result<Format, Error>)
        ensures
            exists|name: Option<Seq<char>>| announces(name, r),
            plain_file_name(path@) ==> announces(Some(path@), r),
            forall|d: Seq<char>, n: Seq<char>|
                #![trigger d + seq!['/'] + n]
                slash_separated(path@) && path@ == d + seq!['/'] + n && plain_file_name(n)
                    ==> announces(Some(n), r),
            path@ == seq!['/'] ==> r == Err::<Format, Error>(Error::InvalidFileName),
    {
        format_of_file_name(file_name_str(path))
    }

    /// A demultiplexer over the rest of this stream.
    pub fn demux(self) -> (r: Demux)
        ensures
            r.wire_format() == self.wire_format(),
            r.remaining() == self.remaining(),
            r.declared() == self.declared(),
            forall|id: u8| r.route(id) is None,
    {
        Demux::over(self.format, self.state)
    }
}

/// A path of one plain component: not empty, not `.` or `..`, and with no
/// character that any platform takes for a separator or a prefix (`/`, `\`,
/// `:`).
pub open spec fn plain_file_name(p: Seq<char>) -> bool {
    &&& p.len() > 0
    &&& p != seq!['.']
    &&& p != seq!['.', '.']
    &&& forall|i: int| 0 <= i < p.len() ==> #[trigger] p[i] != '/' && p[i] != '\\' && p[i] != ':'
}

/// A path that every platform splits at `/` alone: it holds no `\` and no
/// `:`, and does not start with two slashes (a network or device prefix on
/// some platforms).
pub open spec fn slash_separated(p: Seq<char>) -> bool {
    &&& forall|i: int| 0 <= i < p.len() ==> #[trigger] p[i] != '\\' && p[i] != ':'
    &&& !(p.len() >= 2 && p[0] == '/' && p[1] == '/')
}

/// The last component of the path, as std's `Path::file_name` gives it, when
/// it is valid UTF-8 (`OsStr::to_str`). The claims: a path that is one plain
/// component (a normal file name) is its own file name; a path split at
/// `/` alone whose last component is a plain name has that name as its file
/// name; the root `/` has none. What the last component of other paths is
/// depends on the platform's separators and prefixes and is not stated.
#[verifier::external_body]
fn file_name_str(path: &str) -> (r: Option<&str>)
    ensures
        plain_file_name(path@) ==> r is Some && r->0@ == path@,
        forall|d: Seq<char>, n: Seq<char>|
            #![trigger d + seq!['/'] + n]
            slash_separated(path@) && path@ == d + seq!['/'] + n && plain_file_name(n) ==> r is Some
                && r->0@ == n,
        path@ == seq!['/'] ==> r is None,
{
    match std::path::Path::new(path).file_name() {
        Some(n) => n.to_str(),
        None => None,
    }
}

/// The characters end with the suffix.
pub open spec fn ends_with(s: Seq<char>, suffix: Seq<char>) -> bool {
    suffix.len() <= s.len() && s.subrange(s.len() - suffix.len(), s.len() as int) == suffix
}

/// The suffix of text trace files.
pub open spec fn text_suffix() -> Seq<char> {
    seq!['.', 'c', 't', 'x', 'p', '-', 't', 'x', 't']
}

/// The other suffix taken for text trace files.
pub open spec fn text_dot_suffix() -> Seq<char> {
    seq!['.', 'c', 't', 'x', 'p', '.', 't', 'x', 't']
}

/// The suffix of binary trace files.
pub open spec fn binary_suffix() -> Seq<char> {
    seq!['.', 'c', 't', 'x', 'p']
}

/// The result is the one for the file name: `.ctxp-txt` and `.ctxp.txt`
/// are text, `.ctxp` is binary; no name is an invalid file name, any other name an invalid
/// extension that carries the name.
pub open spec fn announces(name: Option<Seq<char>>, r: Result<Format, Error>) -> bool {
    match name {
        None => r == Err::<Format, Error>(Error::InvalidFileName),
        Some(n) => if ends_with(n, text_suffix()) || ends_with(n, text_dot_suffix()) {
            r == Ok::<Format, Error>(Format::Text)
        } else if ends_with(n, binary_suffix()) {
            r == Ok::<Format, Error>(Format::Binary)
        } else {
            r matches Err(Error::InvalidFileExtension(s)) && s@ == n
        },
    }
}

/// Whether the characters end with the suffix.
fn has_suffix(s: &[char], suffix: &[char]) -> (r: bool)
    ensures
        r == ends_with(s@, suffix@),
{
    if suffix.len() > s.len() {
        return false;
    }
    let off = s.len() - suffix.len();
    let mut i: usize = 0;
    while i < suffix.len()
        invariant
            off + suffix@.len() == s@.len(),
            s@.len() == s.len(),
            i <= suffix@.len(),
            forall|j: int| 0 <= j < i ==> s@[off + j] == suffix@[j],
        decreases suffix.len() - i,
    {
        if s[off + i] != suffix[i] {
            assert(s@.subrange(off as int, s@.len() as int)[i as int] != suffix@[i as int]);
            return false;
        }
        i = i + 1;
    }
    assert(s@.subrange(off as int, s@.len() as int) =~= suffix@);
    true
}

/// The format that a file name announces: `.ctxp-txt` and `.ctxp.txt` are
/// text, `.ctxp` is binary; no name is an invalid file name, any other name an invalid
/// extension that carries the name.
pub fn format_of_file_name(name: Option<&str>) -> (r: Result<Format, Error>)
    ensures
        announces(
            match name {
                Some(n) => Some(n@),
                None => None,
            },
            r,
        ),
{
    match name {
        None => Err(Error::InvalidFileName),
        Some(n) => {
            let cs = chars_of(n);
            let text = vec!['.', 'c', 't', 'x', 'p', '-', 't', 'x', 't'];
            let text_dot = vec!['.', 'c', 't', 'x', 'p', '.', 't', 'x', 't'];
            let binary = vec!['.', 'c', 't', 'x', 'p'];
            assert(text@ =~= text_suffix());
            assert(text_dot@ =~= text_dot_suffix());
            assert(binary@ =~= binary_suffix());
            if has_suffix(cs.as_slice(), text.as_slice()) || has_suffix(
                cs.as_slice(),
                text_dot.as_slice(),
            ) {
                Ok(Format::Text)
            } else if has_suffix(cs.as_slice(), binary.as_slice()) {
                Ok(Format::Binary)
            } else {
                Err(Error::InvalidFileExtension(n.to_owned()))
            }
        },
    }
}

/// Where the demultiplexer sends an event: to the handler of its source, or
/// to the handler for sources without one.
#[derive(Debug, Clone, Copy, PartialEq, Eq)]
pub enum Route {
    Source(u8),
    Unhandled,
}

/// A push-based demultiplexer: it reads the events of a stream in order and
/// sends each to the handler of its source, or to the handler for sources
/// without one; an event with neither is dropped. Nothing is buffered.
pub struct Demux {
    format: Format,
    state: DecoderState,
    handled: Vec<u8>,
    unhandled: bool,
}

impl Demux {
    /// The wire format read.
    pub closed spec fn wire_format(&self) -> Format {
        self.format
    }

    /// The input not read yet.
    pub closed spec fn remaining(&self) -> Seq<u8> {
        self.state.remaining()
    }

    /// The sources that the preamble declared.
    pub closed spec fn declared(&self) -> Seq<SourceModel> {
        self.state.sources.deep_view()
    }

    /// Where an event of the source goes, or `None` when it is dropped.
    pub closed spec fn route(&self, id: u8) -> Option<Route> {
        if self.handled@.contains(id) {
            Some(Route::Source(id))
        } else if self.unhandled {
            Some(Route::Unhandled)
        } else {
            None
        }
    }

    fn over(format: Format, state: DecoderState) -> (r: Demux)
        ensures
            r.format == format,
            r.state == state,
            forall|id: u8| r.route(id) is None,
    {
        Demux { format, state, handled: Vec::new(), unhandled: false }
    }

    /// Registers a handler for the source: its events go to it.
    pub fn on_source(&mut self, id: u8)
        ensures
            final(self).wire_format() == old(self).wire_format(),
            final(self).remaining() == old(self).remaining(),
            final(self).declared() == old(self).declared(),
            final(self).route(id) == Some(Route::Source(id)),
            forall|other: u8| other != id ==> final(self).route(other) == old(self).route(other),
    {
        self.handled.push(id);
        assert(self.handled@.contains(id)) by {
            assert(self.handled@[self.handled@.len() - 1] == id);
        }
        assert forall|other: u8| other != id implies self.handled@.contains(other) == old(
            self,
        ).handled@.contains(other) by {
            if self.handled@.contains(other) {
                let k = choose|k: int| 0 <= k < self.handled@.len() && self.handled@[k] == other;
                assert(old(self).handled@[k] == other);
            }
            if old(self).handled@.contains(other) {
                let k = choose|k: int| 0 <= k < old(self).handled@.len() && old(self).handled@[k]
                    == other;
                assert(self.handled@[k] == other);
            }
        }
    }

    /// Registers the handler for sources without one of their own.
    pub fn on_unhandled(&mut self)
        ensures
            final(self).wire_format() == old(self).wire_format(),
            final(self).remaining() == old(self).remaining(),
            final(self).declared() == old(self).declared(),
            forall|id: u8|
                final(self).route(id) == (if old(self).route(id) is Some {
                    old(self).route(id)
                } else {
                    Some(Route::Unhandled)
                }),
    {
        self.unhandled = true;
    }

    /// Where an event of the source goes, or `None` when it is dropped.
    pub fn route_of(&self, id: u8) -> (r: Option<Route>)
        ensures
            r == self.route(id),
    {
        let mut i: usize = 0;
        while i < self.handled.len()
            invariant
                i <= self.handled@.len(),
                forall|j: int| 0 <= j < i ==> self.handled@[j] != id,
            decreases self.handled.len() - i,
        {
            if self.handled[i] == id {
                assert(self.handled@.contains(id)) by {
                    assert(self.handled@[i as int] == id);
                }
                return Some(Route::Source(id));
            }
            i = i + 1;
        }
        if self.unhandled {
            Some(Route::Unhandled)
        } else {
            None
        }
    }

    /// Where each source's events go.
    pub open spec fn router(&self) -> spec_fn(u8) -> Option<Route> {
        |id: u8| self.route(id)
    }

    /// Reads on to the next event that has a route, dropping the events
    /// before it that have none: the route and the event, or the error that
    /// reading an item gave (reading goes on after it at the next call), or
    /// `None` at the end of the input.
    #[verifier::rlimit(60)]
    pub fn next_dispatch(&mut self) -> (r: Option<Result<(Route, Event), Error>>)
        ensures
            final(self).wire_format() == old(self).wire_format(),
            final(self).declared() == old(self).declared(),
            forall|id: u8| final(self).route(id) == old(self).route(id),
            match dispatch_step(old(self).wire_format(), old(self).router(), old(self).remaining()) {
                None => r is None && final(self).remaining() == Seq::<u8>::empty(),
                Some((x, n)) => final(self).remaining() == old(self).remaining().skip(n as int)
                    && match x {
                    Ok(p) => r == Some(Ok::<(Route, Event), Error>(p)),
                    Err(f) => r matches Some(Err(e)) && reports_item(e, f),
                },
            },
    {
        let ghost f = self.format;
        let ghost rt = old(self).router();
        let ghost start = old(self).remaining();
        let ghost mut c: nat = 0;
        assert(start.skip(0) =~= start);
        loop
            invariant
                self.format == f,
                f == old(self).wire_format(),
                self.handled == old(self).handled,
                self.unhandled == old(self).unhandled,
                self.state.sources == old(self).state.sources,
                rt == old(self).router(),
                start == old(self).remaining(),
                c <= start.len(),
                self.remaining() == start.skip(c as int),
                dispatch_step(f, rt, start) == shift_step(c, dispatch_step(f, rt, self.remaining())),
            decreases self.remaining().len(),
        {
            let ghost rem = self.remaining();
            proof {
                lemma_next_item_len(f, rem);
                lemma_dispatch_step(f, rt, rem);
            }
            let next = self.state.next(self.format);
            let ghost step = spec_next_item(f, rem);
            match next {
                None => {
                    assert(dispatch_step(f, rt, rem) is None);
                    assert(self.remaining() =~= Seq::<u8>::empty());
                    return None;
                },
                Some(Err(e)) => {
                    proof {
                        let n = match step {
                            Some((_, m)) => m,
                            None => 0,
                        };
                        lemma_skip_skip(start, c as int, n as int);
                    }
                    return Some(Err(e));
                },
                Some(Ok(event)) => {
                    let ghost n = match step {
                        Some((_, m)) => m,
                        None => 0nat,
                    };
                    assert(step == Some((Ok::<Event, ItemFault>(event), n)));
                    proof {
                        lemma_skip_skip(start, c as int, n as int);
                    }
                    let routed = self.route_of(event.source_id);
                    assert(rt(event.source_id) == old(self).route(event.source_id));
                    assert(self.route(event.source_id) == old(self).route(event.source_id));
                    match routed {
                        Some(route) => {
                            assert(dispatch_step(f, rt, rem) == Some(
                                (Ok::<(Route, Event), ItemFault>((route, event)), n),
                            ));
                            return Some(Ok((route, event)));
                        },
                        None => {
                            assert(dispatch_step(f, rt, rem) == shift_step(
                                n,
                                dispatch_step(f, rt, rem.skip(n as int)),
                            ));
                            proof {
                                c = c + n;
                            }
                        },
                    }
                },
            }
        }
    }

    /// Reads the stream to its end and sends each event that has a route to
    /// `dispatch`, with its route, one call per event in stream order; events
    /// without a route are dropped. Stops at the first reading error or
    /// handler error and returns it.
    #[verifier::rlimit(40)]
    pub fn run<F: Fn(Route, Event) -> Result<(), Error>>(self, dispatch: F) -> (r: Result<(), Error>)
        requires
            forall|route: Route, e: Event| call_requires(dispatch, (route, e)),
        ensures
            r is Ok ==> all_handled(
                dispatch,
                spec_dispatches(self.wire_format(), self.router(), self.remaining()),
                spec_dispatches(self.wire_format(), self.router(), self.remaining()).len() as int,
            ),
            r matches Err(err) ==> exists|k: int|
                0 <= k < spec_dispatches(self.wire_format(), self.router(), self.remaining()).len()
                    && #[trigger] all_handled(
                    dispatch,
                    spec_dispatches(self.wire_format(), self.router(), self.remaining()),
                    k,
                ) && fails_with(
                    dispatch,
                    spec_dispatches(self.wire_format(), self.router(), self.remaining())[k],
                    err,
                ),
    {
        let ghost f = self.wire_format();
        let ghost rt = self.router();
        let ghost ds = spec_dispatches(f, rt, self.remaining());
        let mut d = self;
        let ghost mut k: int = 0;
        loop
            invariant
                f == self.wire_format(),
                rt == self.router(),
                ds == spec_dispatches(f, rt, self.remaining()),
                d.wire_format() == f,
                d.router() == rt,
                0 <= k <= ds.len(),
                spec_dispatches(f, rt, d.remaining()) == ds.skip(k),
                all_handled(dispatch, ds, k),
                forall|route: Route, e: Event| call_requires(dispatch, (route, e)),
            decreases d.remaining().len(),
        {
            let ghost rem = d.remaining();
            let ghost step_spec = dispatch_step(f, rt, rem);
            proof {
                lemma_dispatch_step_len(f, rt, rem);
                assert(ds.skip(k) == match step_spec {
                    None => Seq::<Result<(Route, Event), ItemFault>>::empty(),
                    Some((x, n)) => seq![x] + spec_dispatches(f, rt, rem.skip(n as int)),
                });
            }
            let step = d.next_dispatch();
            proof {
                assert(d.router() =~= rt);
            }
            match step {
                None => {
                    assert(step_spec is None);
                    assert(k == ds.len());
                    assert(all_handled(dispatch, ds, ds.len() as int));
                    return Ok(());
                },
                Some(Err(e)) => {
                    assert(step_spec matches Some((Err(_), _)));
                    assert(ds.skip(k)[0] == ds[k]);
                    assert(fails_with(dispatch, ds[k], e));
                    assert(all_handled(dispatch, ds, k));
                    return Err(e);
                },
                Some(Ok((route, event))) => {
                    assert(step_spec matches Some((Ok(p), _)) && p == (route, event));
                    assert(ds.skip(k)[0] == ds[k]);
                    assert(ds[k] == Ok::<(Route, Event), ItemFault>((route, event)));
                    let res = dispatch(route, event);
                    match res {
                        Ok(_unit) => {
                            assert(res == Ok::<(), Error>(()));
                            assert(ds.skip(k + 1) =~= ds.skip(k).skip(1));
                            proof {
                                k = k + 1;
                            }
                        },
                        Err(e) => {
                            assert(fails_with(dispatch, ds[k], e));
                            assert(all_handled(dispatch, ds, k));
                            return Err(e);
                        },
                    }
                },
            }
        }
    }
}

/// Skipping twice is skipping the sum.
proof fn lemma_skip_skip<A>(s: Seq<A>, a: int, b: int)
    requires
        0 <= a,
        0 <= b,
        a + b <= s.len(),
    ensures
        s.skip(a).skip(b) == s.skip(a + b),
{
    assert(s.skip(a).skip(b) =~= s.skip(a + b));
}

/// A step counted from further back in the input.
pub open spec fn shift_step(c: nat, s: Option<(Result<(Route, Event), ItemFault>, nat)>) -> Option<
    (Result<(Route, Event), ItemFault>, nat),
> {
    match s {
        None => None,
        Some((x, n)) => Some((x, n + c)),
    }
}

/// One step of a demultiplexer over the rest of a stream: the next event
/// that has a route, with its route, after the events that have none; or the
/// next item that failed; with the number of bytes consumed. `None` when the
/// input ends first.
#[verifier::opaque]
pub open spec fn dispatch_step(f: Format, route: spec_fn(u8) -> Option<Route>, rem: Seq<u8>) -> Option<
    (Result<(Route, Event), ItemFault>, nat),
>
    decreases rem.len(),
{
    match spec_next_item(f, rem) {
        None => None,
        Some((Err(ft), n)) => Some((Err(ft), n)),
        Some((Ok(e), n)) => match route(e.source_id) {
            Some(r) => Some((Ok((r, e)), n)),
            None => {
                proof {
                    lemma_next_item_len(f, rem);
                }
                shift_step(n, dispatch_step(f, route, rem.skip(n as int)))
            },
        },
    }
}

/// One step, unfolded: an item that failed, an event that has a route, or
/// an event without one followed by the step after it.
pub proof fn lemma_dispatch_step(f: Format, route: spec_fn(u8) -> Option<Route>, rem: Seq<u8>)
    ensures
        dispatch_step(f, route, rem) == match spec_next_item(f, rem) {
            None => None,
            Some((Err(ft), n)) => Some((Err(ft), n)),
            Some((Ok(e), n)) => match route(e.source_id) {
                Some(r) => Some((Ok((r, e)), n)),
                None => shift_step(n, dispatch_step(f, route, rem.skip(n as int))),
            },
        },
{
    reveal(dispatch_step);
}

/// A step consumes at least one byte and no more than there are.
pub proof fn lemma_dispatch_step_len(f: Format, route: spec_fn(u8) -> Option<Route>, rem: Seq<u8>)
    ensures
        dispatch_step(f, route, rem) matches Some((_, n)) ==> 1 <= n <= rem.len(),
    decreases rem.len(),
{
    lemma_next_item_len(f, rem);
    lemma_dispatch_step(f, route, rem);
    match spec_next_item(f, rem) {
        Some((Ok(e), n)) => {
            if route(e.source_id) is None {
                lemma_dispatch_step_len(f, route, rem.skip(n as int));
            }
        },
        _ => {},
    }
}

/// Everything that a demultiplexer hands on, step by step, until the end of
/// the input.
pub open spec fn spec_dispatches(f: Format, route: spec_fn(u8) -> Option<Route>, rem: Seq<u8>) -> Seq<
    Result<(Route, Event), ItemFault>,
>
    decreases rem.len(),
{
    match dispatch_step(f, route, rem) {
        None => seq![],
        Some((x, n)) => {
            proof {
                lemma_dispatch_step_len(f, route, rem);
            }
            seq![x] + spec_dispatches(f, route, rem.skip(n as int))
        },
    }
}

/// The first `k` steps each handed on an event, and its handler returned
/// without error.
pub open spec fn all_handled<F: Fn(Route, Event) -> Result<(), Error>>(
    dispatch: F,
    ds: Seq<Result<(Route, Event), ItemFault>>,
    k: int,
) -> bool {
    forall|j: int|
        0 <= j < k ==> (#[trigger] ds[j] matches Ok(p) && call_ensures(
            dispatch,
            p,
            Ok::<(), Error>(()),
        ))
}

/// The step ended in the error: reading the item failed with it, or the
/// handler returned it.
pub open spec fn fails_with<F: Fn(Route, Event) -> Result<(), Error>>(
    dispatch: F,
    x: Result<(Route, Event), ItemFault>,
    err: Error,
) -> bool {
    match x {
        Err(f) => reports_item(err, f),
        Ok(p) => call_ensures(dispatch, p, Err::<(), Error>(err)),
    }
}

} // verus!

verus! {

/// The items of a stream as a demultiplexer hands them on: each event that
/// has a route, with its route, and each failed item, in stream order; the
/// events without a route left out.
pub open spec fn routed_items(route: spec_fn(u8) -> Option<Route>, items: Seq<Result<Event, ItemFault>>) -> Seq<
    Result<(Route, Event), ItemFault>,
>
    decreases items.len(),
{
    if items.len() == 0 {
        seq![]
    } else {
        let rest = routed_items(route, items.drop_first());
        match items[0] {
            Err(f) => seq![Err(f)] + rest,
            Ok(e) => match route(e.source_id) {
                Some(r) => seq![Ok((r, e))] + rest,
                None => rest,
            },
        }
    }
}

/// After an event without a route, the steps are those of the input after it.
proof fn lemma_dispatches_skip_dropped(f: Format, route: spec_fn(u8) -> Option<Route>, rem: Seq<u8>, n: nat)
    requires
        spec_next_item(f, rem) matches Some((Ok(e), m)) && m == n && route(e.source_id) is None,
    ensures
        spec_dispatches(f, route, rem) == spec_dispatches(f, route, rem.skip(n as int)),
{
    lemma_next_item_len(f, rem);
    lemma_dispatch_step(f, route, rem);
    let tail = rem.skip(n as int);
    match dispatch_step(f, route, tail) {
        None => {},
        Some((x, m)) => {
            lemma_dispatch_step_len(f, route, tail);
            lemma_skip_skip(rem, n as int, m as int);
        },
    }
}

/// A demultiplexer hands on exactly the items of the stream, in order: each
/// event that has a route once, with that route, and each failed item; the
/// events without a route are dropped.
pub proof fn lemma_dispatches_route_items(f: Format, route: spec_fn(u8) -> Option<Route>, rem: Seq<u8>)
    ensures
        spec_dispatches(f, route, rem) == routed_items(route, spec_items(f, rem)),
    decreases rem.len(),
{
    lemma_next_item_len(f, rem);
    lemma_dispatch_step(f, route, rem);
    match spec_next_item(f, rem) {
        None => {},
        Some((item, n)) => {
            let tail = rem.skip(n as int);
            lemma_dispatches_route_items(f, route, tail);
            let items = spec_items(f, rem);
            assert(items[0] == item);
            assert(items.drop_first() =~= spec_items(f, tail));
            match item {
                Ok(e) => {
                    if route(e.source_id) is None {
                        lemma_dispatches_skip_dropped(f, route, rem, n);
                    }
                },
                Err(_) => {},
            }
        },
    }
}

} // verus!

verus! {

/// The rest of the input holds a whole next item: a full record in the
/// binary format, a line with its line feed in the text format.
pub open spec fn item_complete(f: Format, rem: Seq<u8>) -> bool {
    match f {
        Format::Binary => rem.len() >= 26,
        Format::Text => first_index_of(rem, 10u8) is Some,
    }
}

/// The first occurrence of a value does not move when more follows.
proof fn lemma_first_index_of_append(a: Seq<u8>, b: Seq<u8>, c: u8)
    requires
        first_index_of(a, c) is Some,
    ensures
        first_index_of(a + b, c) == first_index_of(a, c),
    decreases a.len(),
{
    if a[0] != c {
        lemma_first_index_of_append(a.drop_first(), b, c);
        assert((a + b).drop_first() =~= a.drop_first() + b);
    }
}

/// Input that arrives later does not change a whole next item: decoding a
/// live stream as its pieces arrive reads the same items as decoding it all
/// at once.
pub proof fn lemma_complete_item_stable(f: Format, rem: Seq<u8>, more: Seq<u8>)
    requires
        item_complete(f, rem),
    ensures
        item_complete(f, rem + more),
        spec_next_item(f, rem + more) == spec_next_item(f, rem),
{
    match f {
        Format::Binary => {
            assert((rem + more).subrange(0, 26) =~= rem.subrange(0, 26));
        },
        Format::Text => {
            lemma_first_index_of_append(rem, more, 10u8);
            lemma_first_index_of(rem, 10u8);
            let n = line_len(rem);
            assert((rem + more).take(n as int) =~= rem.take(n as int));
        },
    }
}

/// Reading the preamble of a binary stream is the same whether the decoder
/// is the binary one or the one for either format: the same outcome, the
/// same bytes consumed, the same sources, on the same inputs.
pub proof fn lemma_binary_preamble_readers_agree(d: Seq<u8>)
    ensures
        spec_open(Format::Binary, d) == spec_open_binary(d),
        open_panics(Format::Binary, d) == open_binary_panics(d),
{
}

/// Reading the preamble of a text stream is the same whether the decoder is
/// the text one or the one for either format.
pub proof fn lemma_text_preamble_readers_agree(d: Seq<u8>)
    ensures
        spec_open(Format::Text, d) == spec_open_text(d),
        !open_panics(Format::Text, d),
{
}

} // verus!
