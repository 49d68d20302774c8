//! Reading a whole request body into memory under a size limit.
use vstd::prelude::*;

use crate::decoder::PayloadDecoder;
use crate::encoder::append_bytes;

verus! {

/// Default most bytes of a body read into memory (256 KiB).
pub const DEFAULT_CONFIG_LIMIT: usize = 262144;

/// Failure to read a body.
#[derive(PartialEq, Eq, Structural, Debug, Clone, Copy)]
pub enum PayloadError {
    /// The body ended before its declared length.
    Incomplete,
    /// The declared or accumulated length exceeds the limit.
    Overflow,
    /// A `Content-Length` header is present but cannot be read.
    UnknownLength,
}

pub open spec fn is_digit(b: u8) -> bool {
    48 <= b <= 57
}

/// Value of a string of decimal digits, most significant first.
pub open spec fn dec_value(s: Seq<u8>) -> nat
    decreases s.len(),
{
    if s.len() == 0 {
        0
    } else {
        dec_value(s.drop_last()) * 10 + (s.last() - 48) as nat
    }
}

/// The digits of a `Content-Length` value: an optional `+` sign stripped.
pub open spec fn length_digits(v: Seq<u8>) -> Seq<u8> {
    if v.len() > 0 && v[0] == 43 {
        v.drop_first()
    } else {
        v
    }
}

/// A `Content-Length` value reads as a number when it is one or more
/// decimal digits, after an optional `+`, whose value fits in `usize`.
pub open spec fn length_parses(v: Seq<u8>) -> bool {
    let d = length_digits(v);
    &&& d.len() > 0
    &&& forall|i: int| 0 <= i < d.len() ==> is_digit(#[trigger] d[i])
    &&& dec_value(d) <= usize::MAX
}

/// Reads a `Content-Length` value as a number.
pub fn parse_content_length(v: &[u8]) -> (r: Option<usize>)
    ensures
        r is Some <==> length_parses(v@),
        r matches Some(n) ==> n == dec_value(length_digits(v@)),
{
    let len = v.len();
    let first: usize = if len > 0 && v[0] == 43 { 1 } else { 0 };
    if first == len {
        return None;
    }
    let ghost d = length_digits(v@);
    proof {
        assert(d =~= v@.skip(first as int));
    }
    let mut i: usize = first;
    let mut acc: usize = 0;
    let mut big = false;
    while i < len
        invariant
            first <= i <= len,
            len == v@.len(),
            d == v@.skip(first as int),
            d == length_digits(v@),
            forall|j: int| 0 <= j < i - first ==> is_digit(#[trigger] d[j]),
            !big ==> acc == dec_value(d.take(i - first)),
            big ==> dec_value(d.take(i - first)) > usize::MAX,
        decreases len - i,
    {
        let b = v[i];
        if b < 48 || b > 57 {
            proof {
                let k = i - first;
                assert(d[k] == v@[i as int]);
                assert(!is_digit(d[k]));
            }
            return None;
        }
        let digit = (b - 48) as usize;
        proof {
            let k = i - first;
            assert(d.take(k + 1).drop_last() =~= d.take(k));
            assert(d.take(k + 1).last() == b);
            let prev = dec_value(d.take(k));
            assert(prev * 10 + digit >= prev) by (nonlinear_arith);
        }
        if !big {
            if acc > (usize::MAX - digit) / 10 {
                big = true;
                proof {
                    assert(acc * 10 + digit > usize::MAX) by (nonlinear_arith)
                        requires
                            acc > (usize::MAX - digit) / 10,
                            digit <= 9,
                    ;
                }
            } else {
                proof {
                    assert(acc * 10 + digit <= usize::MAX) by (nonlinear_arith)
                        requires
                            acc <= (usize::MAX - digit) / 10,
                            digit <= 9,
                    ;
                }
                acc = acc * 10 + digit;
            }
        }
        i = i + 1;
    }
    proof {
        assert(d.take(len - first) =~= d);
    }
    if big {
        None
    } else {
        Some(acc)
    }
}

/// What a `Content-Length` header, if any, says under body limit `limit`:
/// the declared length, and the error that reading the body must fail with
/// (`UnknownLength` for a value that is not a number, `Overflow` for a length
/// over the limit).
pub open spec fn declared_length(header: Option<Seq<u8>>, limit: usize) -> (
    Option<usize>,
    Option<PayloadError>,
) {
    match header {
        None => (None, None),
        Some(v) => {
            if !length_parses(v) {
                (None, Some(PayloadError::UnknownLength))
            } else if dec_value(length_digits(v)) > limit {
                (Some(dec_value(length_digits(v)) as usize), Some(PayloadError::Overflow))
            } else {
                (Some(dec_value(length_digits(v)) as usize), None)
            }
        },
    }
}

pub open spec fn opt_view(o: Option<&[u8]>) -> Option<Seq<u8>> {
    match o {
        Some(v) => Some(v@),
        None => None,
    }
}

/// A request's body stream, as handed to a handler.
pub struct Payload(pub PayloadDecoder);

impl Payload {
    /// The body decoder inside.
    pub fn into_inner(self) -> (r: PayloadDecoder)
        ensures
            r == self.0,
    {
        self.0
    }
}

/// Collects a whole body in memory, failing past a limit.
pub struct HttpMessageBody {
    pub limit: usize,
    pub length: Option<usize>,
    pub buf: Vec<u8>,
    pub err: Option<PayloadError>,
}

impl HttpMessageBody {
    /// Starts collecting the body of a request whose `Content-Length` header
    /// value is `content_length`, under the default limit. A value that does
    /// not read as a number fails the body with `UnknownLength`; one over the
    /// default limit fails it with `Overflow` unless `limit` raises it.
    pub fn new(content_length: Option<&[u8]>) -> (r: HttpMessageBody)
        ensures
            r.limit == DEFAULT_CONFIG_LIMIT,
            (r.length, r.err) == declared_length(opt_view(content_length), DEFAULT_CONFIG_LIMIT),
            r.buf@.len() == 0,
    {
        let mut length: Option<usize> = None;
        let mut err: Option<PayloadError> = None;
        match content_length {
            Some(v) => match parse_content_length(v) {
                Some(l) => {
                    length = Some(l);
                    if l > DEFAULT_CONFIG_LIMIT {
                        err = Some(PayloadError::Overflow);
                    }
                },
                None => {
                    err = Some(PayloadError::UnknownLength);
                },
            },
            None => {},
        }
        HttpMessageBody { limit: DEFAULT_CONFIG_LIMIT, length, buf: Vec::new(), err }
    }

    /// Changes the limit, which alone decides whether a declared length
    /// overflows: the body fails with `Overflow` exactly when its declared
    /// length exceeds `limit`.
    pub fn limit(self, limit: usize) -> (r: HttpMessageBody)
        ensures
            r.limit == limit,
            r.length == self.length,
            r.buf@ == self.buf@,
            r.err == (match self.length {
                Some(l) => if l > limit {
                    Some(PayloadError::Overflow)
                } else {
                    None
                },
                None => self.err,
            }),
    {
        let mut this = self;
        match this.length {
            Some(l) => {
                if l > limit {
                    this.err = Some(PayloadError::Overflow);
                } else {
                    this.err = None;
                }
            },
            None => {},
        }
        this.limit = limit;
        this
    }

    /// Takes the next item of the body stream (`None` at its end). Returns
    /// `None` while more is wanted, else the collected body or the error:
    /// a pending error first, then `Overflow` as soon as the collected bytes
    /// would exceed the limit.
    pub fn poll(&mut self, item: Option<&[u8]>) -> (r: Option<Result<Vec<u8>, PayloadError>>)
        ensures
            old(self).err matches Some(e) ==> r == Some(Err::<Vec<u8>, PayloadError>(e))
                && final(self).err is None,
            old(self).err is None ==> match item {
                Some(c) => {
                    if old(self).buf@.len() + c@.len() > old(self).limit {
                        r == Some(Err::<Vec<u8>, PayloadError>(PayloadError::Overflow))
                    } else {
                        r is None && final(self).buf@ == old(self).buf@ + c@
                    }
                },
                None => r matches Some(Ok(b)) && b@ == old(self).buf@,
            },
            old(self).err is None ==> final(self).err is None,
            final(self).limit == old(self).limit,
            final(self).length == old(self).length,
    {
        match self.err {
            Some(e) => {
                self.err = None;
                return Some(Err(e));
            },
            None => {},
        }
        match item {
            Some(c) => {
                if c.len() > self.limit || self.buf.len() > self.limit - c.len() {
                    Some(Err(PayloadError::Overflow))
                } else {
                    append_bytes(&mut self.buf, c);
                    None
                }
            },
            None => {
                let mut b: Vec<u8> = Vec::new();
                std::mem::swap(&mut b, &mut self.buf);
                Some(Ok(b))
            },
        }
    }
}

/// Why a body was refused before it was read.
#[derive(PartialEq, Eq, Structural, Debug, Clone, Copy)]
pub enum ExtractError {
    /// The request's content type differs from the required one.
    UnexpectedContentType,
    /// A content type is required and the request has none.
    ContentTypeExpected,
    /// The request's content type is not a media type.
    ContentTypeParse,
    /// Reading the body failed.
    Payload(PayloadError),
}

/// Whether a text parses as a media type.
pub uninterp spec fn mime_parses(s: Seq<char>) -> bool;

/// Whether two texts, both parsing as media types, name equal media types.
pub uninterp spec fn same_media_type(a: Seq<char>, b: Seq<char>) -> bool;

/// Relies on mime's `FromStr for Mime`: the text parses as a media type or
/// it does not, depending on the text alone.
#[verifier::external_body]
fn parses_as_mime(s: &str) -> (r: bool)
    ensures
        r == mime_parses(s@),
{
    s.parse::<mime::Mime>().is_ok()
}

/// Relies on mime's `PartialEq for Mime`, on the two texts parsed by
/// `FromStr`: the result depends on the texts alone. Both texts are ASCII:
/// the comparison slices one text at the other's `;` position, which is a
/// character boundary only then.
#[verifier::external_body]
fn media_types_equal(a: &str, b: &str) -> (r: bool)
    requires
        mime_parses(a@),
        mime_parses(b@),
        vstd::utf8::is_ascii_chars(a@),
        vstd::utf8::is_ascii_chars(b@),
    ensures
        r == same_media_type(a@, b@),
{
    a.parse::<mime::Mime>().ok() == b.parse::<mime::Mime>().ok()
}

/// Settings for reading a request body into memory. The required content
/// type, if any, is held as the text of a media type.
#[derive(Debug)]
pub struct PayloadConfig {
    pub limit: usize,
    pub mimetype: Option<String>,
}

/// Outcome of the content-type check, given whether a type is required and
/// what the request's content type gave: `None` when it has none,
/// `Some(None)` when it is not a media type, `Some(Some(same))` when it is
/// one, `same` telling whether it equals the required type.
pub open spec fn mime_verdict_spec(required: bool, given: Option<Option<bool>>) -> Result<
    (),
    ExtractError,
> {
    if !required {
        Ok(())
    } else {
        match given {
            None => Err(ExtractError::ContentTypeExpected),
            Some(None) => Err(ExtractError::ContentTypeParse),
            Some(Some(same)) => {
                if same {
                    Ok(())
                } else {
                    Err(ExtractError::UnexpectedContentType)
                }
            },
        }
    }
}

/// Decides the content-type check from what parsing and comparing gave.
pub fn mime_verdict(required: bool, given: Option<Option<bool>>) -> (r: Result<(), ExtractError>)
    ensures
        r == mime_verdict_spec(required, given),
{
    if !required {
        return Ok(());
    }
    match given {
        None => Err(ExtractError::ContentTypeExpected),
        Some(None) => Err(ExtractError::ContentTypeParse),
        Some(Some(same)) => {
            if same {
                Ok(())
            } else {
                Err(ExtractError::UnexpectedContentType)
            }
        },
    }
}

/// Whether the request's content type `given` matches the required type
/// `mt`: both parse as media types, both are ASCII text, and they name equal
/// media types.
pub open spec fn mime_matches(mt: Seq<char>, given: Seq<char>) -> bool {
    &&& mime_parses(mt)
    &&& vstd::utf8::is_ascii_chars(mt)
    &&& vstd::utf8::is_ascii_chars(given)
    &&& same_media_type(mt, given)
}

/// Outcome of the content-type check for required type `required` and the
/// request's content type `given`.
pub open spec fn mime_check_spec(required: Option<Seq<char>>, given: Option<Seq<char>>) -> Result<
    (),
    ExtractError,
> {
    match required {
        None => mime_verdict_spec(false, None),
        Some(mt) => match given {
            None => mime_verdict_spec(true, None),
            Some(g) => {
                if !mime_parses(g) {
                    mime_verdict_spec(true, Some(None))
                } else {
                    mime_verdict_spec(true, Some(Some(mime_matches(mt, g))))
                }
            },
        },
    }
}

pub open spec fn opt_str_view(o: Option<&str>) -> Option<Seq<char>> {
    match o {
        Some(v) => Some(v@),
        None => None,
    }
}

pub open spec fn opt_string_view(o: Option<String>) -> Option<Seq<char>> {
    match o {
        Some(v) => Some(v@),
        None => None,
    }
}

impl PayloadConfig {
    /// Settings with body limit `limit` and no required content type.
    pub fn new(limit: usize) -> (r: PayloadConfig)
        ensures
            r.limit == limit,
            r.mimetype is None,
    {
        PayloadConfig { limit, mimetype: None }
    }

    /// Changes the body limit.
    pub fn limit(self, limit: usize) -> (r: PayloadConfig)
        ensures
            r.limit == limit,
            opt_string_view(r.mimetype) == opt_string_view(self.mimetype),
    {
        PayloadConfig { limit, mimetype: self.mimetype }
    }

    /// Requires the request's content type to be the media type `mt`.
    pub fn mimetype(self, mt: &str) -> (r: PayloadConfig)
        ensures
            r.limit == self.limit,
            opt_string_view(r.mimetype) == Some(mt@),
    {
        PayloadConfig { limit: self.limit, mimetype: Some(mt.to_owned()) }
    }

    /// Checks the request's content type (`None` when it has none) against
    /// the required one, if any.
    pub fn check_mimetype(&self, given: Option<&str>) -> (r: Result<(), ExtractError>)
        ensures
            r == mime_check_spec(opt_string_view(self.mimetype), opt_str_view(given)),
    {
        match &self.mimetype {
            None => mime_verdict(false, None),
            Some(mt) => match given {
                None => mime_verdict(true, None),
                Some(g) => {
                    if !parses_as_mime(g) {
                        return mime_verdict(true, Some(None));
                    }
                    let m = mt.as_str();
                    let same = if parses_as_mime(m) && m.is_ascii() && g.is_ascii() {
                        media_types_equal(m, g)
                    } else {
                        false
                    };
                    mime_verdict(true, Some(Some(same)))
                },
            },
        }
    }
}

impl Default for PayloadConfig {
    fn default() -> (r: PayloadConfig)
        ensures
            r.limit == DEFAULT_CONFIG_LIMIT,
            r.mimetype is None,
    {
        PayloadConfig { limit: DEFAULT_CONFIG_LIMIT, mimetype: None }
    }
}

pub open spec fn chunk_views(chunks: Seq<Vec<u8>>) -> Seq<Seq<u8>> {
    chunks.map_values(|c: Vec<u8>| c@)
}

/// Concatenation of body pieces.
pub open spec fn concat(chunks: Seq<Seq<u8>>) -> Seq<u8>
    decreases chunks.len(),
{
    if chunks.len() == 0 {
        Seq::empty()
    } else {
        concat(chunks.drop_last()) + chunks.last()
    }
}

/// Outcome of reading a whole body given as `chunks` under limit
/// `cfg_limit`: the declared length, then the collected length, is checked
/// against the configured limit.
pub open spec fn body_spec(
    cfg_limit: usize,
    content_length: Option<Seq<u8>>,
    chunks: Seq<Seq<u8>>,
) -> Result<Seq<u8>, ExtractError> {
    let err = declared_length(content_length, cfg_limit).1;
    if err is Some {
        Err(ExtractError::Payload(err->Some_0))
    } else if concat(chunks).len() > cfg_limit {
        Err(ExtractError::Payload(PayloadError::Overflow))
    } else {
        Ok(concat(chunks))
    }
}

pub open spec fn body_matches(r: Result<Vec<u8>, ExtractError>, s: Result<Seq<u8>, ExtractError>) -> bool {
    match s {
        Ok(b) => r is Ok && r->Ok_0@ == b,
        Err(e) => r == Err::<Vec<u8>, ExtractError>(e),
    }
}

proof fn lemma_concat_grows(chunks: Seq<Seq<u8>>, i: int)
    requires
        0 <= i <= chunks.len(),
    ensures
        concat(chunks.take(i)).len() <= concat(chunks).len(),
    decreases chunks.len() - i,
{
    if i < chunks.len() {
        lemma_concat_grows(chunks, i + 1);
        assert(chunks.take(i + 1).drop_last() =~= chunks.take(i));
    } else {
        assert(chunks.take(i) =~= chunks);
    }
}

/// Reads a whole request body, given as the pieces its stream yields,
/// under body limit `limit`.
pub fn read_checked_body(
    limit: usize,
    content_length: Option<&[u8]>,
    chunks: &Vec<Vec<u8>>,
) -> (r: Result<Vec<u8>, ExtractError>)
    ensures
        body_matches(r, body_spec(limit, opt_view(content_length), chunk_views(chunks@))),
{
    let ghost cs = chunk_views(chunks@);
    let mut body = HttpMessageBody::new(content_length).limit(limit);
    let mut i: usize = 0;
    while i < chunks.len() && body.err.is_none()
        invariant
            i <= chunks@.len(),
            cs == chunk_views(chunks@),
            body.limit == limit,
            body.err is None ==> body.buf@ == concat(cs.take(i as int)),
            body.err is None ==> concat(cs.take(i as int)).len() <= limit,
            body.err == declared_length(opt_view(content_length), limit).1,
        decreases chunks.len() - i,
    {
        let res = body.poll(Some(chunks[i].as_slice()));
        proof {
            assert(cs.take(i + 1).drop_last() =~= cs.take(i as int));
            assert(cs.take(i + 1).last() == chunks@[i as int]@);
        }
        match res {
            Some(Err(e)) => {
                proof {
                    lemma_concat_grows(cs, i + 1);
                }
                return Err(ExtractError::Payload(e));
            },
            _ => {},
        }
        i = i + 1;
    }
    proof {
        if body.err is None {
            assert(cs.take(chunks@.len() as int) =~= cs);
        }
    }
    match body.poll(None) {
        Some(Ok(b)) => Ok(b),
        Some(Err(e)) => Err(ExtractError::Payload(e)),
        None => Ok(Vec::new()),
    }
}

/// Reads a whole request body under `cfg`: the request's content type is
/// checked first, then the body is read as `read_checked_body` does. This is
/// the extractor of a body as bytes.
pub fn read_body(
    cfg: &PayloadConfig,
    content_type: Option<&str>,
    content_length: Option<&[u8]>,
    chunks: &Vec<Vec<u8>>,
) -> (r: Result<Vec<u8>, ExtractError>)
    ensures
        ({
            let m = mime_check_spec(opt_string_view(cfg.mimetype), opt_str_view(content_type));
            &&& m is Err ==> r == Err::<Vec<u8>, ExtractError>(m->Err_0)
            &&& m is Ok ==> body_matches(
                r,
                body_spec(cfg.limit, opt_view(content_length), chunk_views(chunks@)),
            )
        }),
{
    match cfg.check_mimetype(content_type) {
        Err(e) => Err(e),
        Ok(()) => read_checked_body(cfg.limit, content_length, chunks),
    }
}

/// The charset parameter of a content type that parses as a media type.
pub uninterp spec fn charset_of(ct: Seq<char>) -> Option<Seq<char>>;

/// Whether a label names a character encoding.
pub uninterp spec fn known_encoding(label: Seq<char>) -> bool;

/// The text that bytes spell in the encoding named by a label, or `None`
/// for bytes malformed in it.
pub uninterp spec fn text_in(label: Seq<char>, b: Seq<u8>) -> Option<Seq<char>>;

/// Relies on mime's `Mime::get_param` for `charset`, on the text parsed by
/// `FromStr`: the parameter's value, depending on the text alone.
#[verifier::external_body]
fn charset_param(ct: &str) -> (r: Option<String>)
    requires
        mime_parses(ct@),
    ensures
        opt_string_view(r) == charset_of(ct@),
{
    ct.parse::<mime::Mime>().ok().and_then(|m| m.get_param(mime::CHARSET).map(|v| v.as_str().to_owned()))
}

/// Relies on encoding_rs's `Encoding::for_label_no_replacement`: whether a
/// label names an encoding depends on the label alone.
#[verifier::external_body]
fn encoding_known(label: &str) -> (r: bool)
    ensures
        r == known_encoding(label@),
{
    encoding_rs::Encoding::for_label_no_replacement(label.as_bytes()).is_some()
}

/// Relies on encoding_rs's `decode_without_bom_handling_and_without_replacement`,
/// for the encoding that `for_label_no_replacement` gives the label: the text,
/// or `None` for malformed bytes, depending on label and bytes alone. Its
/// buffer size is computed without overflow for inputs of at most a quarter
/// of the address space.
#[verifier::external_body]
fn decode_labelled(label: &str, b: &[u8]) -> (r: Option<String>)
    requires
        known_encoding(label@),
        b@.len() <= usize::MAX / 4,
    ensures
        opt_string_view(r) == text_in(label@, b@),
{
    encoding_rs::Encoding::for_label_no_replacement(label.as_bytes())
        .and_then(|e| e.decode_without_bom_handling_and_without_replacement(b))
        .map(|t| t.into_owned())
}

/// The encoding a request's body text is in: UTF-8 (`None`) unless its
/// content type names a charset; `Err` when the content type is not a media
/// type or its charset names no encoding.
pub open spec fn text_encoding(content_type: Option<Seq<char>>) -> Result<
    Option<Seq<char>>,
    TextError,
> {
    match content_type {
        None => Ok(None),
        Some(ct) => {
            if !mime_parses(ct) {
                Err(TextError::Extract(ExtractError::ContentTypeParse))
            } else {
                match charset_of(ct) {
                    None => Ok(None),
                    Some(label) => {
                        if known_encoding(label) {
                            Ok(Some(label))
                        } else {
                            Err(TextError::UnknownEncoding)
                        }
                    },
                }
            }
        },
    }
}

/// Decoding of body bytes `b` in encoding `enc` (`None` for UTF-8).
pub open spec fn decoded_text(enc: Option<Seq<char>>, b: Seq<u8>) -> Result<Seq<char>, TextError> {
    let t = match enc {
        None => utf8_text(b),
        Some(label) => if b.len() <= usize::MAX / 4 {
            text_in(label, b)
        } else {
            None
        },
    };
    match t {
        Some(t) => Ok(t),
        None => Err(TextError::Undecodable),
    }
}

/// Reads a whole request body under `cfg` as text: the extractor of a body
/// as a string. The content type is checked first, then the encoding that
/// its charset names (UTF-8 without one), then the body is read and decoded.
pub fn read_body_text(
    cfg: &PayloadConfig,
    content_type: Option<&str>,
    content_length: Option<&[u8]>,
    chunks: &Vec<Vec<u8>>,
) -> (r: Result<String, TextError>)
    ensures
        ({
            let m = mime_check_spec(opt_string_view(cfg.mimetype), opt_str_view(content_type));
            let enc = text_encoding(opt_str_view(content_type));
            let body = body_spec(cfg.limit, opt_view(content_length), chunk_views(chunks@));
            if m is Err {
                r == Err::<String, TextError>(TextError::Extract(m->Err_0))
            } else if enc is Err {
                r == Err::<String, TextError>(enc->Err_0)
            } else if body is Err {
                r == Err::<String, TextError>(TextError::Extract(body->Err_0))
            } else {
                match decoded_text(enc->Ok_0, body->Ok_0) {
                    Ok(t) => r is Ok && r->Ok_0@ == t,
                    Err(e) => r == Err::<String, TextError>(e),
                }
            }
        }),
{
    let m = cfg.check_mimetype(content_type);
    if let Err(e) = m {
        return Err(TextError::Extract(e));
    }
    let enc: Option<String> = match content_type {
        None => None,
        Some(ct) => {
            if !parses_as_mime(ct) {
                return Err(TextError::Extract(ExtractError::ContentTypeParse));
            }
            match charset_param(ct) {
                None => None,
                Some(label) => {
                    if !encoding_known(label.as_str()) {
                        return Err(TextError::UnknownEncoding);
                    }
                    Some(label)
                },
            }
        },
    };
    let body = match read_checked_body(cfg.limit, content_length, chunks) {
        Err(e) => {
            return Err(TextError::Extract(e));
        },
        Ok(b) => b,
    };
    let text = match &enc {
        None => decode_utf8(body.as_slice()),
        Some(label) => {
            if body.len() <= usize::MAX / 4 {
                decode_labelled(label.as_str(), body.as_slice())
            } else {
                None
            }
        },
    };
    match text {
        Some(t) => Ok(t),
        None => Err(TextError::Undecodable),
    }
}

/// Why a body could not be read as text.
#[derive(PartialEq, Eq, Structural, Debug, Clone, Copy)]
pub enum TextError {
    Extract(ExtractError),
    /// The content type's charset names no encoding.
    UnknownEncoding,
    /// The body is malformed in its encoding.
    Undecodable,
}

/// The text that UTF-8 bytes spell, or `None` for bytes that are not UTF-8.
pub uninterp spec fn utf8_text(b: Seq<u8>) -> Option<Seq<char>>;

/// Relies on encoding_rs's `decode_without_bom_handling_and_without_replacement`
/// for UTF-8: the text of valid UTF-8 bytes, `None` for malformed bytes; no
/// bytes give the empty text.
#[verifier::external_body]
fn decode_utf8(b: &[u8]) -> (r: Option<String>)
    ensures
        match utf8_text(b@) {
            Some(t) => r is Some && r->Some_0@ == t,
            None => r is None,
        },
        b@.len() == 0 ==> r is Some && r->Some_0@.len() == 0,
{
    encoding_rs::UTF_8.decode_without_bom_handling_and_without_replacement(b).map(|t| t.into_owned())
}

/// The configured limit decides: a declared length over it fails the body
/// with `Overflow`, one within it does not fail on that account, and one that
/// does not read as a number fails with `UnknownLength`, before any of the
/// body is read, whatever the body is.
pub proof fn lemma_declared_length_refused(cfg_limit: usize, v: Seq<u8>, chunks: Seq<Seq<u8>>)
    ensures
        length_parses(v) && dec_value(length_digits(v)) > cfg_limit ==> body_spec(
            cfg_limit,
            Some(v),
            chunks,
        ) == Err::<Seq<u8>, ExtractError>(ExtractError::Payload(PayloadError::Overflow)),
        length_parses(v) && dec_value(length_digits(v)) <= cfg_limit ==> body_spec(
            cfg_limit,
            Some(v),
            chunks,
        ) == body_spec(cfg_limit, None, chunks),
        !length_parses(v) ==> body_spec(cfg_limit, Some(v), chunks) == Err::<
            Seq<u8>,
            ExtractError,
        >(ExtractError::Payload(PayloadError::UnknownLength)),
{
}

} // verus!
