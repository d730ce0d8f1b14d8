//! A decoder for single-part `multipart/form-data` bodies: a boundary line,
//! a `Content-Disposition` header, a `Content-Type` header, a blank line, the
//! part's raw bytes, and the closing boundary.
use vstd::prelude::*;
use vstd::slice::{slice_subrange, slice_to_vec};
use vstd::string::StringSliceAdditionalSpecFns;
use vstd::utf8::{decode_utf8, encode_utf8, encode_utf8_decode_utf8, valid_utf8};

use crate::strutil::{
    bytes_eq, spec_split, spec_split_once, spec_starts_with, spec_trim_ws, split_once, split_str,
    starts_with, str_eq, trim,
};

verus! {

/// Why a multipart body failed to decode.
#[derive(PartialEq, Eq, Structural, Debug, Clone, Copy)]
pub enum MultipartError {
    /// A header line of the part was not valid UTF-8 text.
    InvalidText,
    /// The first line was not `--` followed by the boundary token.
    BoundaryMismatch,
    /// The second line did not start with `Content-Disposition:`.
    BadContentDisposition,
    /// The first `Content-Disposition` directive was not `form-data`.
    NotFormData,
    /// No `name=` directive was present.
    MissingNameDirective,
    /// A directive that needs an `=` had none.
    BadDirective,
    /// The third line did not start with `Content-Type:`.
    MissingContentType,
    /// The line before the data was not blank.
    MissingBlankLine,
    /// The body ended before a closing boundary could stand.
    MissingTerminator,
    /// The request had no `Content-Type` header to take a boundary from.
    NoContentTypeHeader,
    /// The `Content-Type` header did not declare a `multipart/form-data`
    /// boundary.
    NoBoundary,
}

/// One decoded part: its form name, optional file name, content type, and
/// raw data bytes.
#[derive(Debug, PartialEq, Eq)]
pub struct MultipartBodyPart {
    pub name: String,
    pub filename: Option<String>,
    pub content_type: String,
    pub data: Vec<u8>,
}

/// The mathematical shape of a decoded part.
#[verifier::ext_equal]
pub ghost struct PartView {
    pub name: Seq<char>,
    pub filename: Option<Seq<char>>,
    pub content_type: Seq<char>,
    pub data: Seq<u8>,
}

impl View for MultipartBodyPart {
    type V = PartView;

    open spec fn view(&self) -> PartView {
        PartView {
            name: self.name@,
            filename: match self.filename {
                Some(ref f) => Some(f@),
                None => None,
            },
            content_type: self.content_type@,
            data: self.data@,
        }
    }
}

/// A decoded multipart body; this decoder yields exactly one part.
#[derive(Debug, PartialEq, Eq)]
pub struct MultipartBody {
    pub parts: Vec<MultipartBodyPart>,
}

/// The parsed content of a `Content-Disposition` header line.
#[derive(Debug, PartialEq, Eq)]
pub struct ContentDispositionHeader {
    pub form_name: String,
    pub filename: Option<String>,
}

/// The position of the first `b` in `v` at or after `i`.
pub open spec fn first_byte_from(v: Seq<u8>, b: u8, i: int) -> Option<int>
    decreases v.len() - i,
{
    if i < 0 || i >= v.len() {
        None
    } else if v[i] == b {
        Some(i)
    } else {
        first_byte_from(v, b, i + 1)
    }
}

/// One line of `v`, newline included, and the bytes after it; without a
/// newline the whole of `v` is the line.
pub open spec fn spec_take_line(v: Seq<u8>) -> (Seq<u8>, Seq<u8>) {
    match first_byte_from(v, 10, 0) {
        Some(i) => (v.take(i + 1), v.skip(i + 1)),
        None => (v, Seq::empty()),
    }
}

/// Splits off the first line of `v`, as a buffered line read does.
fn take_line<'a>(v: &'a [u8]) -> (r: (&'a [u8], &'a [u8]))
    ensures
        r.0@ == spec_take_line(v@).0,
        r.1@ == spec_take_line(v@).1,
{
    let n = v.len();
    let mut i: usize = 0;
    while i < n
        invariant
            i <= n,
            n == v@.len(),
            first_byte_from(v@, 10, 0) == first_byte_from(v@, 10, i as int),
        decreases n - i,
    {
        if v[i] == 10 {
            let line = slice_subrange(v, 0, i + 1);
            let rest = slice_subrange(v, i + 1, n);
            proof {
                assert(line@ =~= v@.take(i + 1));
                assert(rest@ =~= v@.skip(i + 1));
            }
            return (line, rest);
        }
        i = i + 1;
    }
    let rest = slice_subrange(v, n, n);
    proof {
        assert(rest@ =~= Seq::<u8>::empty());
    }
    (v, rest)
}

/// Relies on `core::str::from_utf8`: turns bytes into text exactly when they
/// are valid UTF-8.
#[verifier::external_body]
pub(crate) fn utf8_to_str<'a>(v: &'a [u8]) -> (r: Option<&'a str>)
    ensures
        r matches Some(s) ==> valid_utf8(v@) && s.spec_bytes() == v@,
        r is None ==> !valid_utf8(v@),
{
    core::str::from_utf8(v).ok()
}

/// The characters of `s` with every double quote removed, scanning from `i`.
pub open spec fn remove_quotes_from(s: Seq<char>, i: int) -> Seq<char>
    decreases s.len() - i,
{
    if i < 0 || i >= s.len() {
        Seq::empty()
    } else if s[i] == '"' {
        remove_quotes_from(s, i + 1)
    } else {
        seq![s[i]] + remove_quotes_from(s, i + 1)
    }
}

/// The characters of `s` with every double quote removed.
pub open spec fn spec_remove_quotes(s: Seq<char>) -> Seq<char> {
    remove_quotes_from(s, 0)
}

/// Removes every double quote of `s`, as `str::replace('"', "")` does.
fn remove_quotes(s: &str) -> (r: String)
    ensures
        r@ == spec_remove_quotes(s@),
{
    let n = s.unicode_len();
    let mut out = String::new();
    let mut i: usize = 0;
    while i < n
        invariant
            i <= n,
            n == s@.len(),
            spec_remove_quotes(s@) == out@ + remove_quotes_from(s@, i as int),
        decreases n - i,
    {
        let c = s.get_char(i);
        if c != '"' {
            let ghost pre = out@;
            let piece = s.substring_char(i, i + 1);
            out.append(piece);
            proof {
                assert(piece@ =~= seq![s@[i as int]]);
                assert(out@ + remove_quotes_from(s@, i + 1) =~= pre + (seq![s@[i as int]]
                    + remove_quotes_from(s@, i + 1)));
            }
        }
        i = i + 1;
    }
    proof {
        assert(out@ + remove_quotes_from(s@, n as int) =~= out@);
    }
    out
}

/// The first directive at position `i` or later that starts with `p`.
pub open spec fn first_dir_from(dirs: Seq<Seq<char>>, p: Seq<char>, i: int) -> Option<Seq<char>>
    decreases dirs.len() - i,
{
    if i < 0 || i >= dirs.len() {
        None
    } else if spec_starts_with(dirs[i], p) {
        Some(dirs[i])
    } else {
        first_dir_from(dirs, p, i + 1)
    }
}

fn find_directive(dirs: &Vec<String>, p: &str) -> (r: Option<String>)
    ensures
        match r {
            Some(d) => first_dir_from(dirs@.map_values(|s: String| s@), p@, 0) == Some(d@),
            None => first_dir_from(dirs@.map_values(|s: String| s@), p@, 0) is None,
        },
{
    let ghost ds = dirs@.map_values(|s: String| s@);
    let n = dirs.len();
    let mut i: usize = 0;
    while i < n
        invariant
            i <= n,
            n == dirs@.len(),
            ds == dirs@.map_values(|s: String| s@),
            first_dir_from(ds, p@, 0) == first_dir_from(ds, p@, i as int),
        decreases n - i,
    {
        if starts_with(dirs[i].as_str(), p) {
            return Some(dirs[i].clone());
        }
        i = i + 1;
    }
    None
}

/// What parsing a `Content-Disposition` line yields: the form name (required)
/// and the file name (optional), quotes stripped from both.
pub open spec fn spec_parse_content_disposition(s: Seq<char>) -> Result<
    (Seq<char>, Option<Seq<char>>),
    MultipartError,
> {
    if !spec_starts_with(s, "Content-Disposition:"@) {
        Err(MultipartError::BadContentDisposition)
    } else {
        let dirs = spec_split(s.skip("Content-Disposition:"@.len() as int), ';').map_values(
            |d: Seq<char>| spec_trim_ws(d),
        );
        if dirs[0] != "form-data"@ {
            Err(MultipartError::NotFormData)
        } else {
            match first_dir_from(dirs, "name="@, 0) {
                None => Err(MultipartError::MissingNameDirective),
                Some(nd) => match spec_split_once(nd, '=') {
                    None => Err(MultipartError::BadDirective),
                    Some(nv) => {
                        let name = spec_remove_quotes(nv.1);
                        match first_dir_from(dirs, "filename="@, 0) {
                            None => Ok((name, None)),
                            Some(fd) => match spec_split_once(fd, '=') {
                                None => Err(MultipartError::BadDirective),
                                Some(fv) => Ok((name, Some(spec_remove_quotes(fv.1)))),
                            },
                        }
                    },
                },
            }
        }
    }
}

impl ContentDispositionHeader {
    /// Parses a `Content-Disposition: form-data; name="..."` header line.
    pub fn from_line(line: &str) -> (r: Result<ContentDispositionHeader, MultipartError>)
        ensures
            r is Ok <==> spec_parse_content_disposition(line@) is Ok,
            r matches Ok(h) ==> spec_parse_content_disposition(line@) matches Ok(v) && h.form_name@
                == v.0 && (match h.filename {
                Some(ref f) => v.1 == Some(f@),
                None => v.1 is None,
            }),
            r matches Err(e) ==> spec_parse_content_disposition(line@) == Err::<
                (Seq<char>, Option<Seq<char>>),
                MultipartError,
            >(e),
    {
        if !starts_with(line, "Content-Disposition:") {
            return Err(MultipartError::BadContentDisposition);
        }
        proof {
            reveal_strlit("Content-Disposition:");
            assert("Content-Disposition:"@.len() == 20);
        }
        let n = line.unicode_len();
        let data = line.substring_char(20, n);
        proof {
            assert(data@ =~= line@.skip("Content-Disposition:"@.len() as int));
        }
        let raw = split_str(data, ';');
        let ghost pieces = raw@.map_values(|x: String| x@);
        let m = raw.len();
        let mut dirs: Vec<String> = Vec::new();
        let mut k: usize = 0;
        while k < m
            invariant
                k <= m,
                m == raw@.len(),
                pieces == raw@.map_values(|x: String| x@),
                dirs@.map_values(|s: String| s@) =~= pieces.map_values(
                    |a: Seq<char>| spec_trim_ws(a),
                ).take(k as int),
            decreases m - k,
        {
            let ghost pre = dirs@.map_values(|s: String| s@);
            let t = trim(raw[k].as_str());
            dirs.push(t.to_owned());
            proof {
                assert(dirs@.map_values(|s: String| s@) =~= pre.push(
                    spec_trim_ws(pieces[k as int]),
                ));
                assert(dirs@.map_values(|s: String| s@) =~= pieces.map_values(
                    |a: Seq<char>| spec_trim_ws(a),
                ).take(k + 1));
            }
            k = k + 1;
        }
        let ghost dv = spec_split(data@, ';').map_values(|d: Seq<char>| spec_trim_ws(d));
        proof {
            assert(pieces.map_values(|a: Seq<char>| spec_trim_ws(a)).take(m as int) =~= dv);
        }
        if !str_eq(dirs[0].as_str(), "form-data") {
            return Err(MultipartError::NotFormData);
        }
        let name_dir = match find_directive(&dirs, "name=") {
            Some(d) => d,
            None => {
                return Err(MultipartError::MissingNameDirective);
            },
        };
        let name = match split_once(name_dir.as_str(), '=') {
            Some((_, v)) => remove_quotes(v),
            None => {
                return Err(MultipartError::BadDirective);
            },
        };
        let filename = match find_directive(&dirs, "filename=") {
            Some(d) => match split_once(d.as_str(), '=') {
                Some((_, v)) => Some(remove_quotes(v)),
                None => {
                    return Err(MultipartError::BadDirective);
                },
            },
            None => None,
        };
        Ok(ContentDispositionHeader { form_name: name, filename })
    }
}

/// What decoding a single-part body with boundary token `boundary` yields
/// from the raw bytes `bytes`.
pub open spec fn spec_multipart(boundary: Seq<char>, bytes: Seq<u8>) -> Result<
    PartView,
    MultipartError,
> {
    let (l1, r1) = spec_take_line(bytes);
    if !valid_utf8(l1) {
        Err(MultipartError::InvalidText)
    } else if spec_trim_ws(decode_utf8(l1)) != "--"@ + boundary {
        Err(MultipartError::BoundaryMismatch)
    } else {
        let (l2, r2) = spec_take_line(r1);
        if !valid_utf8(l2) {
            Err(MultipartError::InvalidText)
        } else {
            match spec_parse_content_disposition(decode_utf8(l2)) {
                Err(e) => Err(e),
                Ok(cd) => {
                    let (l3, r3) = spec_take_line(r2);
                    if !valid_utf8(l3) {
                        Err(MultipartError::InvalidText)
                    } else if !spec_starts_with(decode_utf8(l3), "Content-Type:"@) {
                        Err(MultipartError::MissingContentType)
                    } else {
                        let ct = spec_trim_ws(
                            spec_remove_quotes(
                                decode_utf8(l3).skip("Content-Type:"@.len() as int),
                            ),
                        );
                        let (l4, r4) = spec_take_line(r3);
                        if !valid_utf8(l4) {
                            Err(MultipartError::InvalidText)
                        } else if spec_trim_ws(decode_utf8(l4)).len() != 0 {
                            Err(MultipartError::MissingBlankLine)
                        } else {
                            let term = encode_utf8("--"@ + boundary + "--"@);
                            if r4.len() < term.len() as usize {
                                Err(MultipartError::MissingTerminator)
                            } else if r4.skip(r4.len() - (term.len() as usize)) != term {
                                Err(MultipartError::MissingTerminator)
                            } else {
                                Ok(
                                    PartView {
                                        name: cd.0,
                                        filename: cd.1,
                                        content_type: ct,
                                        data: r4.take(r4.len() - (term.len() as usize)),
                                    },
                                )
                            }
                        }
                    }
                },
            }
        }
    }
}

impl MultipartBody {
    /// Decodes a single-part `multipart/form-data` body. The boundary line,
    /// the `Content-Disposition` and `Content-Type` headers and the blank
    /// line must stand exactly as the grammar asks; the body must end with
    /// the closing `--boundary--` terminator, and the data is everything up
    /// to, and not including, it.
    pub fn from_bytes(boundary: &str, bytes: &[u8]) -> (r: Result<MultipartBody, MultipartError>)
        ensures
            r is Ok <==> spec_multipart(boundary@, bytes@) is Ok,
            r matches Ok(mb) ==> mb.parts@.len() == 1 && mb.parts@[0]@ == spec_multipart(
                boundary@,
                bytes@,
            )->Ok_0,
            r matches Err(e) ==> spec_multipart(boundary@, bytes@) == Err::<
                PartView,
                MultipartError,
            >(e),
    {
        let mut actual_boundary = String::new();
        actual_boundary.append("--");
        actual_boundary.append(boundary);
        proof {
            assert(actual_boundary@ =~= "--"@ + boundary@);
        }
        let (l1, r1) = take_line(bytes);
        let s1 = match utf8_to_str(l1) {
            Some(s) => s,
            None => {
                return Err(MultipartError::InvalidText);
            },
        };
        proof {
            encode_utf8_decode_utf8(s1@);
        }
        if !str_eq(trim(s1), actual_boundary.as_str()) {
            return Err(MultipartError::BoundaryMismatch);
        }
        let (l2, r2) = take_line(r1);
        let s2 = match utf8_to_str(l2) {
            Some(s) => s,
            None => {
                return Err(MultipartError::InvalidText);
            },
        };
        proof {
            encode_utf8_decode_utf8(s2@);
        }
        let cd = match ContentDispositionHeader::from_line(s2) {
            Ok(h) => h,
            Err(e) => {
                return Err(e);
            },
        };
        let (l3, r3) = take_line(r2);
        let s3 = match utf8_to_str(l3) {
            Some(s) => s,
            None => {
                return Err(MultipartError::InvalidText);
            },
        };
        proof {
            encode_utf8_decode_utf8(s3@);
        }
        if !starts_with(s3, "Content-Type:") {
            return Err(MultipartError::MissingContentType);
        }
        proof {
            reveal_strlit("Content-Type:");
            assert("Content-Type:"@.len() == 13);
        }
        let n3 = s3.unicode_len();
        let ct_raw = s3.substring_char(13, n3);
        proof {
            assert(ct_raw@ =~= s3@.skip("Content-Type:"@.len() as int));
        }
        let unquoted_ct = remove_quotes(ct_raw);
        let content_type = trim(unquoted_ct.as_str()).to_owned();
        let (l4, r4) = take_line(r3);
        let s4 = match utf8_to_str(l4) {
            Some(s) => s,
            None => {
                return Err(MultipartError::InvalidText);
            },
        };
        proof {
            encode_utf8_decode_utf8(s4@);
        }
        if trim(s4).unicode_len() != 0 {
            return Err(MultipartError::MissingBlankLine);
        }
        let mut terminator = String::new();
        terminator.append("--");
        terminator.append(boundary);
        terminator.append("--");
        proof {
            assert(terminator@ =~= "--"@ + boundary@ + "--"@);
        }
        let term_bytes = terminator.as_str().as_bytes();
        let ghost term = encode_utf8("--"@ + boundary@ + "--"@);
        proof {
            assert(term_bytes@ == term);
        }
        let tlen = term_bytes.len();
        if r4.len() < tlen {
            return Err(MultipartError::MissingTerminator);
        }
        let tail = slice_subrange(r4, r4.len() - tlen, r4.len());
        proof {
            assert(tail@ =~= r4@.skip(r4@.len() - (term.len() as usize)));
        }
        if !bytes_eq(tail, term_bytes) {
            return Err(MultipartError::MissingTerminator);
        }
        let data_slice = slice_subrange(r4, 0, r4.len() - tlen);
        let data = slice_to_vec(data_slice);
        proof {
            assert(data@ =~= r4@.take(r4@.len() - (term.len() as usize)));
        }
        let part = MultipartBodyPart { name: cd.form_name, filename: cd.filename, content_type, data };
        let mut parts: Vec<MultipartBodyPart> = Vec::new();
        parts.push(part);
        proof {
            assert(parts@[0]@ =~= spec_multipart(boundary@, bytes@)->Ok_0);
        }
        Ok(MultipartBody { parts })
    }
}

} // verus!
