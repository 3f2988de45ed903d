//! The shared folder.
//!
//! Only this process ever opens the files: because no LibreOffice desktop
//! instance touches them, no `.~lock.<name>#` file is ever created and the
//! "second user gets read-only" problem disappears.
use vstd::prelude::*;
use vstd::utf8::*;
use crate::text::{ascii_lower, str_eq, push_char, hex_lower, hex_lower_spec, chars_of, starts_with, has_prefix, string_from_chars, to_lowercase, lowercase};
use crate::paths::{self, path_join};

verus! {

broadcast use vstd::utf8::group_utf8_lib;

/// One editable file of the shared folder, as the client lists it.
pub struct DocumentDto {
    pub id: String,
    pub name: String,
    pub extension: String,
    pub kind: String,
    pub size: u64,
    /// Unix seconds.
    pub modified: i64,
}

/// The kind of document an extension stands for; only these extensions are
/// offered for editing, so stray PDFs and images do not clutter the list.
pub open spec fn kind_of(ext: Seq<char>) -> Option<Seq<char>> {
    if ext == "odt"@ || ext == "ott"@ || ext == "doc"@ || ext == "docx"@ || ext == "rtf"@ || ext
        == "txt"@ {
        Some("text"@)
    } else if ext == "ods"@ || ext == "ots"@ || ext == "xls"@ || ext == "xlsx"@ || ext == "csv"@ {
        Some("spreadsheet"@)
    } else if ext == "odp"@ || ext == "otp"@ || ext == "ppt"@ || ext == "pptx"@ {
        Some("presentation"@)
    } else if ext == "odg"@ {
        Some("drawing"@)
    } else {
        None
    }
}

/// The editable extensions and their kinds: text documents (odt, ott, doc,
/// docx, rtf, txt), spreadsheets (ods, ots, xls, xlsx, csv), presentations
/// (odp, otp, ppt, pptx) and drawings (odg). No other extension is offered.
pub proof fn lemma_editable_extensions(ext: Seq<char>)
    ensures
        kind_of("odt"@) == Some("text"@),
        kind_of("ott"@) == Some("text"@),
        kind_of("doc"@) == Some("text"@),
        kind_of("docx"@) == Some("text"@),
        kind_of("rtf"@) == Some("text"@),
        kind_of("txt"@) == Some("text"@),
        kind_of("ods"@) == Some("spreadsheet"@),
        kind_of("ots"@) == Some("spreadsheet"@),
        kind_of("xls"@) == Some("spreadsheet"@),
        kind_of("xlsx"@) == Some("spreadsheet"@),
        kind_of("csv"@) == Some("spreadsheet"@),
        kind_of("odp"@) == Some("presentation"@),
        kind_of("otp"@) == Some("presentation"@),
        kind_of("ppt"@) == Some("presentation"@),
        kind_of("pptx"@) == Some("presentation"@),
        kind_of("odg"@) == Some("drawing"@),
        kind_of(ext) is Some ==> ext == "odt"@ || ext == "ott"@ || ext == "doc"@ || ext == "docx"@
            || ext == "rtf"@ || ext == "txt"@ || ext == "ods"@ || ext == "ots"@ || ext == "xls"@
            || ext == "xlsx"@ || ext == "csv"@ || ext == "odp"@ || ext == "otp"@ || ext == "ppt"@
            || ext == "pptx"@ || ext == "odg"@,
{
    reveal_strlit("odt");
    reveal_strlit("ott");
    reveal_strlit("doc");
    reveal_strlit("docx");
    reveal_strlit("rtf");
    reveal_strlit("txt");
    reveal_strlit("ods");
    reveal_strlit("ots");
    reveal_strlit("xls");
    reveal_strlit("xlsx");
    reveal_strlit("csv");
    reveal_strlit("odp");
    reveal_strlit("otp");
    reveal_strlit("ppt");
    reveal_strlit("pptx");
    reveal_strlit("odg");
    assert("ods"@[2] != "odt"@[2]);
    assert("ods"@[1] != "ott"@[1]);
    assert("ods"@[0] != "doc"@[0]);
    assert("ods"@.len() != "docx"@.len());
    assert("ods"@[0] != "rtf"@[0]);
    assert("ods"@[0] != "txt"@[0]);
    assert("ots"@[1] != "odt"@[1]);
    assert("ots"@[2] != "ott"@[2]);
    assert("ots"@[0] != "doc"@[0]);
    assert("ots"@.len() != "docx"@.len());
    assert("ots"@[0] != "rtf"@[0]);
    assert("ots"@[0] != "txt"@[0]);
    assert("xls"@[0] != "odt"@[0]);
    assert("xls"@[0] != "ott"@[0]);
    assert("xls"@[0] != "doc"@[0]);
    assert("xls"@.len() != "docx"@.len());
    assert("xls"@[0] != "rtf"@[0]);
    assert("xls"@[0] != "txt"@[0]);
    assert("xlsx"@.len() != "odt"@.len());
    assert("xlsx"@.len() != "ott"@.len());
    assert("xlsx"@.len() != "doc"@.len());
    assert("xlsx"@[0] != "docx"@[0]);
    assert("xlsx"@.len() != "rtf"@.len());
    assert("xlsx"@.len() != "txt"@.len());
    assert("csv"@[0] != "odt"@[0]);
    assert("csv"@[0] != "ott"@[0]);
    assert("csv"@[0] != "doc"@[0]);
    assert("csv"@.len() != "docx"@.len());
    assert("csv"@[0] != "rtf"@[0]);
    assert("csv"@[0] != "txt"@[0]);
    assert("odp"@[2] != "odt"@[2]);
    assert("odp"@[1] != "ott"@[1]);
    assert("odp"@[0] != "doc"@[0]);
    assert("odp"@.len() != "docx"@.len());
    assert("odp"@[0] != "rtf"@[0]);
    assert("odp"@[0] != "txt"@[0]);
    assert("odp"@[2] != "ods"@[2]);
    assert("odp"@[1] != "ots"@[1]);
    assert("odp"@[0] != "xls"@[0]);
    assert("odp"@.len() != "xlsx"@.len());
    assert("odp"@[0] != "csv"@[0]);
    assert("otp"@[1] != "odt"@[1]);
    assert("otp"@[2] != "ott"@[2]);
    assert("otp"@[0] != "doc"@[0]);
    assert("otp"@.len() != "docx"@.len());
    assert("otp"@[0] != "rtf"@[0]);
    assert("otp"@[0] != "txt"@[0]);
    assert("otp"@[1] != "ods"@[1]);
    assert("otp"@[2] != "ots"@[2]);
    assert("otp"@[0] != "xls"@[0]);
    assert("otp"@.len() != "xlsx"@.len());
    assert("otp"@[0] != "csv"@[0]);
    assert("ppt"@[0] != "odt"@[0]);
    assert("ppt"@[0] != "ott"@[0]);
    assert("ppt"@[0] != "doc"@[0]);
    assert("ppt"@.len() != "docx"@.len());
    assert("ppt"@[0] != "rtf"@[0]);
    assert("ppt"@[0] != "txt"@[0]);
    assert("ppt"@[0] != "ods"@[0]);
    assert("ppt"@[0] != "ots"@[0]);
    assert("ppt"@[0] != "xls"@[0]);
    assert("ppt"@.len() != "xlsx"@.len());
    assert("ppt"@[0] != "csv"@[0]);
    assert("pptx"@.len() != "odt"@.len());
    assert("pptx"@.len() != "ott"@.len());
    assert("pptx"@.len() != "doc"@.len());
    assert("pptx"@[0] != "docx"@[0]);
    assert("pptx"@.len() != "rtf"@.len());
    assert("pptx"@.len() != "txt"@.len());
    assert("pptx"@.len() != "ods"@.len());
    assert("pptx"@.len() != "ots"@.len());
    assert("pptx"@.len() != "xls"@.len());
    assert("pptx"@[0] != "xlsx"@[0]);
    assert("pptx"@.len() != "csv"@.len());
    assert("odg"@[2] != "odt"@[2]);
    assert("odg"@[1] != "ott"@[1]);
    assert("odg"@[0] != "doc"@[0]);
    assert("odg"@.len() != "docx"@.len());
    assert("odg"@[0] != "rtf"@[0]);
    assert("odg"@[0] != "txt"@[0]);
    assert("odg"@[2] != "ods"@[2]);
    assert("odg"@[1] != "ots"@[1]);
    assert("odg"@[0] != "xls"@[0]);
    assert("odg"@.len() != "xlsx"@.len());
    assert("odg"@[0] != "csv"@[0]);
    assert("odg"@[2] != "odp"@[2]);
    assert("odg"@[1] != "otp"@[1]);
    assert("odg"@[0] != "ppt"@[0]);
    assert("odg"@.len() != "pptx"@.len());
}

pub fn kind_for(extension: &str) -> (r: Option<&'static str>)
    ensures
        r matches Some(k) ==> kind_of(extension@) == Some(k@),
        r is None ==> kind_of(extension@) is None,
{
    if str_eq(extension, "odt") || str_eq(extension, "ott") || str_eq(extension, "doc") || str_eq(
        extension,
        "docx",
    ) || str_eq(extension, "rtf") || str_eq(extension, "txt") {
        Some("text")
    } else if str_eq(extension, "ods") || str_eq(extension, "ots") || str_eq(extension, "xls")
        || str_eq(extension, "xlsx") || str_eq(extension, "csv") {
        Some("spreadsheet")
    } else if str_eq(extension, "odp") || str_eq(extension, "otp") || str_eq(extension, "ppt")
        || str_eq(extension, "pptx") {
        Some("presentation")
    } else if str_eq(extension, "odg") {
        Some("drawing")
    } else {
        None
    }
}

/// Two lower-case hexadecimal digits per byte.
pub open spec fn hex_encode(b: Seq<u8>) -> Seq<char>
    decreases b.len(),
{
    if b.len() == 0 {
        seq![]
    } else {
        seq![hex_lower_spec((b[0] / 16) as int), hex_lower_spec((b[0] % 16) as int)] + hex_encode(
            b.drop_first(),
        )
    }
}

/// A document id: the lower-case hexadecimal encoding of the file name's UTF-8 bytes.
pub open spec fn encode_id_spec(name: Seq<char>) -> Seq<char> {
    hex_encode(encode_utf8(name))
}

proof fn lemma_hex_lower_digits(v: int)
    requires
        0 <= v < 16,
    ensures
        hex_lower_spec(v) == "0123456789abcdef"@[v],
{
    reveal_strlit("0123456789abcdef");
    if v == 0 {} else if v == 1 {} else if v == 2 {} else if v == 3 {} else if v == 4 {}
    else if v == 5 {} else if v == 6 {} else if v == 7 {} else if v == 8 {} else if v == 9 {}
    else if v == 10 {} else if v == 11 {} else if v == 12 {} else if v == 13 {} else if v == 14 {}
    else {}
}

/// A document id spells each byte of the name as two lower-case hexadecimal
/// digits, high half first, in the order of the bytes.
pub proof fn lemma_hex_encode_digits(b: Seq<u8>, i: int)
    requires
        0 <= i < b.len(),
    ensures
        hex_encode(b).len() == 2 * b.len(),
        hex_encode(b)[2 * i] == "0123456789abcdef"@[(b[i] / 16) as int],
        hex_encode(b)[2 * i + 1] == "0123456789abcdef"@[(b[i] % 16) as int],
    decreases i,
{
    lemma_hex_encode_shape(b);
    lemma_hex_lower_digits((b[i] / 16) as int);
    lemma_hex_lower_digits((b[i] % 16) as int);
    if i > 0 {
        lemma_hex_encode_digits(b.drop_first(), i - 1);
        let rest = hex_encode(b.drop_first());
        assert(hex_encode(b)[2 * i] == rest[2 * (i - 1)]);
        assert(hex_encode(b)[2 * i + 1] == rest[2 * (i - 1) + 1]);
    }
}

/// Document ids are the hex-encoded file name.
///
/// Reversible, URL-safe, and it cannot express `..` or a path separator once
/// decoded back through [`resolve`], which validates the result.
pub fn encode_id(file_name: &str) -> (r: String)
    ensures
        r@ == encode_id_spec(file_name@),
{
    let b = file_name.as_bytes();
    let n = b.len();
    let mut out = String::new();
    let mut i: usize = 0;
    proof {
        assert(b@.subrange(0, n as int) =~= b@);
        assert(out@ + hex_encode(b@) =~= hex_encode(b@));
    }
    while i < n
        invariant
            n == b@.len(),
            b@ == encode_utf8(file_name@),
            0 <= i <= n,
            out@ + hex_encode(b@.subrange(i as int, n as int)) == hex_encode(b@),
        decreases n - i,
    {
        let byte = b[i];
        let ghost prev = out@;
        push_char(&mut out, hex_lower(byte / 16));
        push_char(&mut out, hex_lower(byte % 16));
        proof {
            let rest = b@.subrange(i as int, n as int);
            assert(rest.drop_first() =~= b@.subrange(i + 1, n as int));
            assert(rest[0] == byte);
            let pair = seq![hex_lower_spec((byte / 16) as int), hex_lower_spec((byte % 16) as int)];
            assert(hex_encode(rest) == pair + hex_encode(rest.drop_first()));
            assert(out@ =~= prev + pair);
            assert(out@ + hex_encode(b@.subrange(i + 1, n as int)) =~= prev + (pair + hex_encode(
                b@.subrange(i + 1, n as int),
            )));
        }
        i += 1;
    }
    proof {
        assert(b@.subrange(n as int, n as int) =~= Seq::<u8>::empty());
        assert(out@ + Seq::<char>::empty() =~= out@);
    }
    out
}

/// The value of a hexadecimal digit byte, either case.
pub open spec fn hex_val(c: u8) -> Option<u8> {
    if 48 <= c <= 57 {
        Some((c - 48) as u8)
    } else if 97 <= c <= 102 {
        Some((c - 87) as u8)
    } else if 65 <= c <= 70 {
        Some((c - 55) as u8)
    } else {
        None
    }
}

/// What `u8::from_str_radix(pair, 16)` gives for a two-byte text: two hex
/// digits, or a `+` sign followed by one.
pub open spec fn pair_value(c1: u8, c2: u8) -> Option<u8> {
    if c1 == 43 {
        hex_val(c2)
    } else {
        match (hex_val(c1), hex_val(c2)) {
            (Some(a), Some(b)) => Some((a * 16 + b) as u8),
            _ => None,
        }
    }
}

/// The bytes that a run of two-character groups stands for, or `None` as
/// soon as one group is not a number.
pub open spec fn hex_decode(b: Seq<u8>) -> Option<Seq<u8>>
    decreases b.len(),
{
    if b.len() == 0 {
        Some(seq![])
    } else if b.len() == 1 {
        None
    } else {
        match pair_value(b[0], b[1]) {
            Some(v) => match hex_decode(b.subrange(2, b.len() as int)) {
                Some(r) => Some(seq![v] + r),
                None => None,
            },
            None => None,
        }
    }
}

/// The id's groups can be cut out of the text: each group that is examined
/// ends on a character boundary. The groups are examined in order until the
/// first one that is not a number.
pub open spec fn groups_on_boundaries(b: Seq<u8>) -> bool
    decreases b.len(),
{
    if b.len() < 2 {
        true
    } else if b.len() > 2 && is_continuation_byte(b[2]) {
        false
    } else if pair_value(b[0], b[1]) is None {
        true
    } else {
        groups_on_boundaries(b.subrange(2, b.len() as int))
    }
}

/// The ids that can be decoded without cutting a character in two.
pub open spec fn decodable_id(id: Seq<char>) -> bool {
    encode_utf8(id).len() % 2 != 0 || groups_on_boundaries(encode_utf8(id))
}

/// The file name an id stands for, if any.
pub open spec fn decode_id_spec(id: Seq<char>) -> Option<Seq<char>> {
    let b = encode_utf8(id);
    if b.len() == 0 || b.len() % 2 != 0 {
        None
    } else {
        match hex_decode(b) {
            Some(bytes) => if valid_utf8(bytes) {
                Some(decode_utf8(bytes))
            } else {
                None
            },
            None => None,
        }
    }
}

fn hex_val_exec(c: u8) -> (r: Option<u8>)
    ensures
        r == hex_val(c),
{
    if 48 <= c && c <= 57 {
        Some(c - 48)
    } else if 97 <= c && c <= 102 {
        Some(c - 87)
    } else if 65 <= c && c <= 70 {
        Some(c - 55)
    } else {
        None
    }
}

fn pair_value_exec(c1: u8, c2: u8) -> (r: Option<u8>)
    ensures
        r == pair_value(c1, c2),
{
    if c1 == 43 {
        hex_val_exec(c2)
    } else {
        match (hex_val_exec(c1), hex_val_exec(c2)) {
            (Some(a), Some(b)) => Some(a * 16 + b),
            _ => None,
        }
    }
}

/// The bytes of an ASCII character sequence, one per character.
pub open spec fn ascii_bytes(cs: Seq<char>) -> Seq<u8> {
    Seq::new(cs.len(), |i: int| cs[i] as u8)
}

/// A lower-case hexadecimal digit character.
pub open spec fn is_hex_lower_char(c: char) -> bool {
    ('0' <= c <= '9') || ('a' <= c <= 'f')
}

proof fn lemma_hex_digit(d: int)
    requires
        0 <= d < 16,
    ensures
        hex_val(hex_lower_spec(d) as u8) == Some(d as u8),
        is_hex_lower_char(hex_lower_spec(d)),
        (hex_lower_spec(d) as u32) < 128,
{
}

/// Every id is made of lower-case hexadecimal digits, two per byte of the name.
pub proof fn lemma_hex_encode_shape(b: Seq<u8>)
    ensures
        hex_encode(b).len() == 2 * b.len(),
        forall|i: int| 0 <= i < hex_encode(b).len() ==> is_hex_lower_char(#[trigger] hex_encode(b)[i]),
        is_ascii_chars(hex_encode(b)),
    decreases b.len(),
{
    if b.len() > 0 {
        lemma_hex_encode_shape(b.drop_first());
        lemma_hex_digit((b[0] / 16) as int);
        lemma_hex_digit((b[0] % 16) as int);
        let pair = seq![hex_lower_spec((b[0] / 16) as int), hex_lower_spec((b[0] % 16) as int)];
        let rest = hex_encode(b.drop_first());
        assert forall|i: int| 0 <= i < hex_encode(b).len() implies is_hex_lower_char(
            #[trigger] hex_encode(b)[i],
        ) by {
            if i >= 2 {
                assert(hex_encode(b)[i] == rest[i - 2]);
            }
        }
        assert forall|i: int| 0 <= i < hex_encode(b).len() implies '\0' <= #[trigger] hex_encode(
            b,
        )[i] <= '\u{7f}' by {
            if i >= 2 {
                assert(hex_encode(b)[i] == rest[i - 2]);
            }
        }
    }
}

proof fn lemma_hex_decode_encode(b: Seq<u8>)
    ensures
        hex_decode(ascii_bytes(hex_encode(b))) == Some(b),
        groups_on_boundaries(ascii_bytes(hex_encode(b))),
    decreases b.len(),
{
    let x = ascii_bytes(hex_encode(b));
    if b.len() > 0 {
        lemma_hex_decode_encode(b.drop_first());
        lemma_hex_encode_shape(b.drop_first());
        lemma_hex_digit((b[0] / 16) as int);
        lemma_hex_digit((b[0] % 16) as int);
        let rest = ascii_bytes(hex_encode(b.drop_first()));
        assert(x.subrange(2, x.len() as int) =~= rest);
        assert(pair_value(x[0], x[1]) == Some(b[0]));
        assert(seq![b[0]] + b.drop_first() =~= b);
        if x.len() > 2 {
            lemma_hex_digit(0);
            assert(x[2] == rest[0]);
            assert(is_hex_lower_char(hex_encode(b.drop_first())[0]));
        }
    } else {
        assert(x =~= Seq::<u8>::empty());
    }
}

proof fn lemma_encode_utf8_nonempty(name: Seq<char>)
    requires
        name.len() > 0,
    ensures
        encode_utf8(name).len() > 0,
{
    let c = name[0] as u32;
    assert(encode_scalar(c).len() > 0);
}

/// An id decodes back to the file name it was made from: the encoding is
/// reversible for every non-empty name.
pub proof fn lemma_decode_encode_id(name: Seq<char>)
    requires
        name.len() > 0,
    ensures
        decodable_id(encode_id_spec(name)),
        decode_id_spec(encode_id_spec(name)) == Some(name),
{
    let b = encode_utf8(name);
    let e = hex_encode(b);
    lemma_hex_encode_shape(b);
    is_ascii_chars_encode_utf8(e);
    assert(encode_utf8(e) =~= ascii_bytes(e));
    lemma_hex_decode_encode(b);
    lemma_encode_utf8_nonempty(name);
    encode_utf8_valid_utf8(name);
    encode_utf8_decode_utf8(name);
}

/// What the client is told about a document, as plain values.
pub struct DocumentView {
    pub id: Seq<char>,
    pub name: Seq<char>,
    pub extension: Seq<char>,
    pub kind: Seq<char>,
    pub size: u64,
    pub modified: i64,
}

impl View for DocumentDto {
    type V = DocumentView;

    open spec fn view(&self) -> DocumentView {
        DocumentView {
            id: self.id@,
            name: self.name@,
            extension: self.extension@,
            kind: self.kind@,
            size: self.size,
            modified: self.modified,
        }
    }
}

/// The position of the last `c` in `s`.
pub open spec fn last_index_of(s: Seq<char>, c: char) -> Option<int>
    decreases s.len(),
{
    if s.len() == 0 {
        None
    } else if s.last() == c {
        Some(s.len() - 1)
    } else {
        last_index_of(s.drop_last(), c)
    }
}

/// The extension of a file name, as `Path::extension` reads it: the text
/// after the last `.`, unless there is no `.`, or the only one starts the
/// name, or the name is `..`.
pub open spec fn extension_spec(name: Seq<char>) -> Option<Seq<char>> {
    if name == ".."@ {
        None
    } else {
        match last_index_of(name, '.') {
            Some(k) => if k == 0 {
                None
            } else {
                Some(name.subrange(k + 1, name.len() as int))
            },
            None => None,
        }
    }
}

proof fn lemma_last_index_of(s: Seq<char>, c: char, i: int)
    requires
        0 <= i <= s.len(),
        forall|k: int| i <= k < s.len() ==> #[trigger] s[k] != c,
    ensures
        i > 0 && s[i - 1] == c ==> last_index_of(s, c) == Some(i - 1),
        i == 0 ==> last_index_of(s, c) is None,
    decreases s.len() - i,
{
    if i < s.len() {
        lemma_last_index_of(s.drop_last(), c, i);
    }
}

/// The extension of a name is what follows its last dot: a non-empty stem,
/// a dot and a text without dots give that text.
pub proof fn lemma_extension_after_last_dot(stem: Seq<char>, ext: Seq<char>)
    requires
        stem.len() > 0,
        !ext.contains('.'),
        stem + seq!['.'] + ext != ".."@,
    ensures
        extension_spec(stem + seq!['.'] + ext) == Some(ext),
{
    let name = stem + seq!['.'] + ext;
    let i: int = stem.len() as int + 1;
    assert forall|k: int| i <= k < name.len() implies #[trigger] name[k] != '.' by {
        assert(name[k] == ext[k - i]);
    }
    lemma_last_index_of(name, '.', i);
    assert(name.subrange(i, name.len() as int) =~= ext);
}

/// `Path::extension` of a bare file name.
pub fn extension(name: &str) -> (r: Option<String>)
    ensures
        r matches Some(e) ==> extension_spec(name@) == Some(e@),
        r is None ==> extension_spec(name@) is None,
{
    if str_eq(name, "..") {
        return None;
    }
    let v = chars_of(name);
    let mut i: usize = v.len();
    while i > 0 && v[i - 1] != '.'
        invariant
            v@ == name@,
            i <= v@.len(),
            forall|k: int| i <= k < v@.len() ==> #[trigger] v@[k] != '.',
        decreases i,
    {
        i -= 1;
    }
    proof {
        lemma_last_index_of(v@, '.', i as int);
    }
    if i <= 1 {
        return None;
    }
    Some(string_from_chars(&v, i, v.len()))
}

/// Lock files of LibreOffice and temporary files of Office.
pub open spec fn is_lock_or_temp(name: Seq<char>) -> bool {
    has_prefix(name, ".~lock"@) || has_prefix(name, "~$"@)
}

/// LibreOffice lock files (`.~lock...`) and Office temporary files
/// (`~$...`) are never listed, whatever else holds of them.
pub proof fn lemma_lock_and_temp_files_skipped(rest: Seq<char>, size: u64, modified: Option<u64>)
    ensures
        document_entry_spec(seq!['.', '~', 'l', 'o', 'c', 'k'] + rest, true, size, modified) is None,
        document_entry_spec(seq!['~', '$'] + rest, true, size, modified) is None,
{
    reveal_strlit(".~lock");
    reveal_strlit("~$");
    let a = seq!['.', '~', 'l', 'o', 'c', 'k'] + rest;
    let b = seq!['~', '$'] + rest;
    assert(a.subrange(0, 6) =~= ".~lock"@);
    assert(b.subrange(0, 2) =~= "~$"@);
}

/// The lower-cased extension of a file name, empty when it has none.
pub open spec fn lowered_extension(name: Seq<char>) -> Seq<char> {
    match extension_spec(name) {
        Some(e) => lowercase(e),
        None => Seq::<char>::empty(),
    }
}

/// The listing entry for one directory entry, or `None` when it is not
/// offered: not a regular file, a lock or temporary file, or an extension
/// that is not editable.
pub open spec fn document_entry_spec(name: Seq<char>, is_file: bool, size: u64, modified: Option<u64>) -> Option<DocumentView> {
    if !is_file || is_lock_or_temp(name) {
        None
    } else {
        match kind_of(lowered_extension(name)) {
            Some(kind) => Some(DocumentView {
                id: encode_id_spec(name),
                name,
                extension: lowered_extension(name),
                kind,
                size,
                modified: match modified {
                    Some(t) => t as i64,
                    None => 0,
                },
            }),
            None => None,
        }
    }
}

/// The listing entry for a directory entry: its name, whether it is a
/// regular file, its size, and its modification time in Unix seconds when the
/// file system reports one.
pub fn document_entry(file_name: String, is_file: bool, size: u64, modified: Option<u64>) -> (r: Option<DocumentDto>)
    ensures
        r matches Some(d) ==> document_entry_spec(file_name@, is_file, size, modified) == Some(d@),
        r is None ==> document_entry_spec(file_name@, is_file, size, modified) is None,
        is_file && !is_lock_or_temp(file_name@) ==> match extension_spec(file_name@) {
            Some(e) => (is_ascii_chars(e) && kind_of(ascii_lower(e)) is Some) ==> (r matches Some(d) && d.extension@
                == ascii_lower(e) && d.kind@ == kind_of(ascii_lower(e)).unwrap() && d.name@ == file_name@),
            None => true,
        },
{
    if !is_file {
        return None;
    }
    if starts_with(file_name.as_str(), ".~lock") || starts_with(file_name.as_str(), "~$") {
        return None;
    }
    let ext = match extension(file_name.as_str()) {
        Some(e) => to_lowercase(e.as_str()),
        None => String::new(),
    };
    let kind = match kind_for(ext.as_str()) {
        Some(k) => k,
        None => return None,
    };
    let modified_secs: i64 = match modified {
        Some(t) => t as i64,
        None => 0,
    };
    Some(DocumentDto {
        id: encode_id(file_name.as_str()),
        name: file_name,
        extension: ext,
        kind: crate::text::to_owned_string(kind),
        size,
        modified: modified_secs,
    })
}

/// The documents of `s` modified at time `k`, in order.
pub open spec fn with_modified(s: Seq<DocumentDto>, k: i64) -> Seq<DocumentDto> {
    s.filter(|d: DocumentDto| d.modified == k)
}

/// Newest first.
pub open spec fn newest_first(s: Seq<DocumentDto>) -> bool {
    forall|i: int, j: int| 0 <= i < j < s.len() ==> (#[trigger] s[i]).modified >= (#[trigger] s[j]).modified
}

proof fn lemma_with_modified_push(s: Seq<DocumentDto>, d: DocumentDto, k: i64)
    ensures
        with_modified(s.push(d), k) == if d.modified == k {
            with_modified(s, k).push(d)
        } else {
            with_modified(s, k)
        },
{
    reveal(Seq::filter);
    assert(s.push(d).drop_last() =~= s);
}

proof fn lemma_with_modified_none(s: Seq<DocumentDto>, k: i64)
    requires
        forall|i: int| 0 <= i < s.len() ==> (#[trigger] s[i]).modified != k,
    ensures
        with_modified(s, k) == Seq::<DocumentDto>::empty(),
    decreases s.len(),
{
    reveal(Seq::filter);
    if s.len() > 0 {
        lemma_with_modified_none(s.drop_last(), k);
    }
}

proof fn lemma_with_modified_add(a: Seq<DocumentDto>, b: Seq<DocumentDto>, k: i64)
    ensures
        with_modified(a + b, k) == with_modified(a, k) + with_modified(b, k),
{
    Seq::filter_distributes_over_add(a, b, |d: DocumentDto| d.modified == k);
}

/// Sorts a listing newest first. The sort is stable: documents modified at
/// the same second keep their relative order.
pub fn sort_newest_first(docs: Vec<DocumentDto>) -> (r: Vec<DocumentDto>)
    ensures
        r@.len() == docs@.len(),
        newest_first(r@),
        forall|k: i64| #[trigger] with_modified(r@, k) == with_modified(docs@, k),
{
    let ghost orig = docs@;
    let mut rest = docs;
    let mut out: Vec<DocumentDto> = Vec::new();
    let ghost mut done: nat = 0;
    proof {
        assert(orig.take(0) =~= Seq::<DocumentDto>::empty());
        assert forall|k: i64| #[trigger] with_modified(out@, k) == with_modified(orig.take(0), k) by {
            lemma_with_modified_none(out@, k);
            lemma_with_modified_none(orig.take(0), k);
        }
    }
    while rest.len() > 0
        invariant
            done <= orig.len(),
            rest@ == orig.skip(done as int),
            out@.len() == done,
            newest_first(out@),
            forall|k: i64| #[trigger] with_modified(out@, k) == with_modified(orig.take(done as int), k),
        decreases rest.len(),
    {
        let d = rest.remove(0);
        assert(d == orig[done as int]);
        let mut p: usize = 0;
        while p < out.len() && out[p].modified >= d.modified
            invariant
                0 <= p <= out@.len(),
                forall|i: int| 0 <= i < p ==> (#[trigger] out@[i]).modified >= d.modified,
            decreases out.len() - p,
        {
            p += 1;
        }
        let ghost before = out@;
        proof {
            assert forall|i: int| p <= i < before.len() implies (#[trigger] before[i]).modified < d.modified by {
                if p < before.len() {
                    assert(before[p as int].modified < d.modified);
                    if i > p {
                        assert(before[p as int].modified >= before[i].modified);
                    }
                }
            }
        }
        out.insert(p, d);
        proof {
            let lo = before.subrange(0, p as int);
            let hi = before.subrange(p as int, before.len() as int);
            assert(out@ =~= lo + seq![d] + hi);
            assert(before =~= lo + hi);
            assert(orig.take((done + 1) as int) =~= orig.take(done as int).push(d));
            assert forall|k: i64| #[trigger] with_modified(out@, k) == with_modified(orig.take((done + 1) as int), k) by {
                lemma_with_modified_add(lo + seq![d], hi, k);
                lemma_with_modified_add(lo, seq![d], k);
                lemma_with_modified_add(lo, hi, k);
                lemma_with_modified_push(orig.take(done as int), d, k);
                lemma_with_modified_push(Seq::<DocumentDto>::empty(), d, k);
                assert(seq![d] =~= Seq::<DocumentDto>::empty().push(d));
                lemma_with_modified_none(Seq::<DocumentDto>::empty(), k);
                if d.modified == k {
                    assert forall|i: int| 0 <= i < hi.len() implies (#[trigger] hi[i]).modified != k by {
                        assert(hi[i] == before[p + i]);
                    }
                    lemma_with_modified_none(hi, k);
                    assert(with_modified(out@, k) =~= with_modified(lo, k).push(d));
                    assert(with_modified(before, k) =~= with_modified(lo, k));
                } else {
                    assert(with_modified(out@, k) =~= with_modified(lo, k) + with_modified(hi, k));
                }
            }
            assert forall|i: int, j: int| 0 <= i < j < out@.len() implies (#[trigger] out@[i]).modified
                >= (#[trigger] out@[j]).modified by {
                if j < p {
                    assert(out@[i] == before[i] && out@[j] == before[j]);
                } else if j == p {
                    assert(out@[i] == before[i]);
                } else if i == p {
                    assert(out@[j] == before[j - 1]);
                } else if i < p {
                    assert(out@[i] == before[i] && out@[j] == before[j - 1]);
                } else {
                    assert(out@[i] == before[i - 1] && out@[j] == before[j - 1]);
                }
            }
            assert(rest@ =~= orig.skip((done + 1) as int));
            done = done + 1;
        }
    }
    proof {
        assert(orig.take(done as int) =~= orig);
    }
    out
}

/// What the file system reports of one entry of the shared folder.
pub struct FileMeta {
    pub is_file: bool,
    pub size: u64,
    /// Modification time in Unix seconds, when the file system reports one.
    pub modified: Option<u64>,
}

/// One directory entry: its name and, if it could be read, its metadata.
pub struct DirEntryInfo {
    pub name: String,
    pub metadata: Option<FileMeta>,
}

/// The listing entry of a directory entry; entries whose metadata could not
/// be read are skipped.
pub open spec fn entry_doc(e: DirEntryInfo) -> Option<DocumentView> {
    match e.metadata {
        Some(m) => document_entry_spec(e.name@, m.is_file, m.size, m.modified),
        None => None,
    }
}

/// The listing entries of a run of directory entries, in order.
pub open spec fn collected(es: Seq<DirEntryInfo>) -> Seq<DocumentView>
    decreases es.len(),
{
    if es.len() == 0 {
        seq![]
    } else {
        collected(es.drop_last()) + match entry_doc(es.last()) {
            Some(v) => seq![v],
            None => Seq::<DocumentView>::empty(),
        }
    }
}

/// The client's view of a run of listing entries.
pub open spec fn views_of(c: Seq<DocumentDto>) -> Seq<DocumentView> {
    c.map_values(|d: DocumentDto| d@)
}

/// Every editable file of the shared folder, newest first, from the entries
/// the folder holds (in the order the file system gave them).
pub fn list_entries(entries: Vec<DirEntryInfo>) -> (r: Vec<DocumentDto>)
    ensures
        newest_first(r@),
        exists|c: Seq<DocumentDto>|
            {
                &&& #[trigger] views_of(c) == collected(entries@)
                &&& r@.len() == c.len()
                &&& forall|k: i64| #[trigger] with_modified(r@, k) == with_modified(c, k)
            },
{
    let ghost es = entries@;
    let mut rest = entries;
    let mut docs: Vec<DocumentDto> = Vec::new();
    let ghost mut done: int = 0;
    proof {
        assert(es.take(0) =~= Seq::<DirEntryInfo>::empty());
        assert(docs@.map_values(|d: DocumentDto| d@) =~= collected(es.take(0)));
    }
    while rest.len() > 0
        invariant
            0 <= done <= es.len(),
            rest@ == es.skip(done),
            docs@.map_values(|d: DocumentDto| d@) == collected(es.take(done)),
        decreases rest.len(),
    {
        let e = rest.remove(0);
        assert(e == es[done]);
        let ghost prev = docs@.map_values(|d: DocumentDto| d@);
        assert(es.take(done + 1).drop_last() =~= es.take(done));
        assert(es.take(done + 1).last() == e);
        let found = match e.metadata {
            Some(m) => document_entry(e.name, m.is_file, m.size, m.modified),
            None => None,
        };
        match found {
            Some(d) => {
                docs.push(d);
                proof {
                    assert(docs@.map_values(|d: DocumentDto| d@) =~= prev + seq![d@]);
                }
            },
            None => {
                proof {
                    assert(prev + Seq::<DocumentView>::empty() =~= prev);
                }
            },
        }
        proof {
            assert(rest@ =~= es.skip(done + 1));
            done = done + 1;
        }
    }
    proof {
        assert(es.take(done) =~= es);
    }
    let ghost c = docs@;
    let r = sort_newest_first(docs);
    assert(views_of(c) == collected(es));
    r
}

/// `String::from_utf8`: `Ok` exactly when the bytes are valid UTF-8, and
/// then the string whose encoding they are.
#[verifier::external_body]
fn string_from_utf8(v: Vec<u8>) -> (r: Result<String, std::string::FromUtf8Error>)
    ensures
        r is Ok <==> valid_utf8(v@),
        r matches Ok(s) ==> s@ == decode_utf8(v@),
{
    String::from_utf8(v)
}

/// The file name an id stands for: the text read as two-digit hexadecimal
/// numbers, which must spell valid UTF-8.
pub fn decode_id(id: &str) -> (r: Option<String>)
    requires
        decodable_id(id@),
    ensures
        r matches Some(s) ==> decode_id_spec(id@) == Some(s@),
        r is None ==> decode_id_spec(id@) is None,
{
    let b = id.as_bytes();
    let n = b.len();
    if n == 0 || n % 2 != 0 {
        return None;
    }
    let mut out: Vec<u8> = Vec::new();
    let mut i: usize = 0;
    proof {
        assert(b@.subrange(0, n as int) =~= b@);
        match hex_decode(b@) {
            Some(r) => {
                assert(out@ + r =~= r);
            },
            None => {},
        }
    }
    while i < n
        invariant
            n == b@.len(),
            b@ == encode_utf8(id@),
            n % 2 == 0,
            i % 2 == 0,
            0 <= i <= n,
            hex_decode(b@) == (match hex_decode(b@.subrange(i as int, n as int)) {
                Some(r) => Some(out@ + r),
                None => None,
            }),
        decreases n - i,
    {
        let rest = Ghost(b@.subrange(i as int, n as int));
        assert(rest@.len() >= 2);
        assert(rest@[0] == b[i as int] && rest@[1] == b[i + 1]);
        assert(rest@.subrange(2, rest@.len() as int) =~= b@.subrange(i + 2, n as int));
        match pair_value_exec(b[i], b[i + 1]) {
            Some(v) => {
                let ghost prev = out@;
                out.push(v);
                proof {
                    match hex_decode(b@.subrange(i + 2, n as int)) {
                        Some(r) => {
                            assert(prev + (seq![v] + r) =~= out@ + r);
                        },
                        None => {},
                    }
                }
            },
            None => {
                return None;
            },
        }
        i += 2;
    }
    proof {
        assert(b@.subrange(n as int, n as int) =~= Seq::<u8>::empty());
        assert(out@ + Seq::<u8>::empty() =~= out@);
    }
    match string_from_utf8(out) {
        Ok(s) => Some(s),
        Err(_) => None,
    }
}

/// A decoded name that stays inside the shared folder: no separator, no
/// `..`, no drive letter.
pub open spec fn is_safe_name(n: Seq<char>) -> bool {
    &&& !n.contains('/')
    &&& !n.contains('\\')
    &&& !n.contains(':')
    &&& !(exists|i: int| 0 <= i < n.len() - 1 && #[trigger] n[i] == '.' && n[i + 1] == '.')
}

/// The file name an id resolves to, before the folder is consulted.
pub open spec fn resolve_name_spec(id: Seq<char>) -> Option<Seq<char>> {
    match decode_id_spec(id) {
        Some(n) => if is_safe_name(n) {
            Some(n)
        } else {
            None
        },
        None => None,
    }
}

/// No id reaches outside the shared folder: a name an id resolves to holds
/// no path separator, no drive colon and no `..`.
pub proof fn lemma_resolved_name_stays_inside(id: Seq<char>)
    ensures
        resolve_name_spec(id) matches Some(n) ==> {
            &&& !n.contains('/')
            &&& !n.contains('\\')
            &&& !n.contains(':')
            &&& forall|i: int| 0 <= i < n.len() - 1 ==> !(#[trigger] n[i] == '.' && n[i + 1] == '.')
        },
{
}

/// A name is refused only for a path separator, a drive colon or `..`:
/// the id of every other non-empty name resolves back to that name.
pub proof fn lemma_plain_names_resolve(name: Seq<char>)
    requires
        name.len() > 0,
        forall|i: int| 0 <= i < name.len() ==> #[trigger] name[i] != '/' && name[i] != '\\' && name[i]
            != ':',
        forall|i: int| 0 <= i < name.len() - 1 ==> !(#[trigger] name[i] == '.' && name[i + 1] == '.'),
    ensures
        decodable_id(encode_id_spec(name)),
        resolve_name_spec(encode_id_spec(name)) == Some(name),
{
    assert(!name.contains('/'));
    assert(!name.contains('\\'));
    assert(!name.contains(':'));
    lemma_decode_encode_id(name);
}

/// A listed document can be opened by its id: the id of a non-empty name
/// without separators, drive colons or `..` resolves back to that name.
pub proof fn lemma_listed_name_resolves(name: Seq<char>)
    requires
        name.len() > 0,
        is_safe_name(name),
    ensures
        decodable_id(encode_id_spec(name)),
        resolve_name_spec(encode_id_spec(name)) == Some(name),
{
    lemma_decode_encode_id(name);
}

fn contains_char(v: &Vec<char>, c: char) -> (r: bool)
    ensures
        r == v@.contains(c),
{
    let mut i: usize = 0;
    while i < v.len()
        invariant
            0 <= i <= v@.len(),
            forall|k: int| 0 <= k < i ==> v@[k] != c,
        decreases v.len() - i,
    {
        if v[i] == c {
            return true;
        }
        i += 1;
    }
    false
}

fn contains_dot_dot(v: &Vec<char>) -> (r: bool)
    ensures
        r == exists|i: int| 0 <= i < v@.len() - 1 && #[trigger] v@[i] == '.' && v@[i + 1] == '.',
{
    let mut i: usize = 0;
    while i < v.len()
        invariant
            0 <= i <= v@.len(),
            forall|k: int| 0 <= k < i && k < v@.len() - 1 ==> !(#[trigger] v@[k] == '.' && v@[k + 1]
                == '.'),
        decreases v.len() - i,
    {
        if i + 1 < v.len() && v[i] == '.' && v[i + 1] == '.' {
            return true;
        }
        i += 1;
    }
    false
}

/// Whether `id` can be decoded without cutting a character in two; ids that
/// fail this would make the decoding step panic.
pub fn is_decodable_id(id: &str) -> (r: bool)
    ensures
        r == decodable_id(id@),
{
    let b = id.as_bytes();
    let n = b.len();
    if n % 2 != 0 {
        return true;
    }
    let mut i: usize = 0;
    proof {
        assert(b@.subrange(0, n as int) =~= b@);
    }
    while i < n
        invariant
            n == b@.len(),
            b@ == encode_utf8(id@),
            n % 2 == 0,
            i % 2 == 0,
            0 <= i <= n,
            groups_on_boundaries(b@) == groups_on_boundaries(b@.subrange(i as int, n as int)),
        decreases n - i,
    {
        let ghost rest = b@.subrange(i as int, n as int);
        assert(rest.subrange(2, rest.len() as int) =~= b@.subrange(i + 2, n as int));
        if i + 2 < n && 0x80 <= b[i + 2] && b[i + 2] <= 0xbf {
            assert(rest[2] == b[i + 2]);
            return false;
        }
        if i + 2 < n {
            assert(rest[2] == b[i + 2]);
        }
        if pair_value_exec(b[i], b[i + 1]).is_none() {
            return true;
        }
        i += 2;
    }
    true
}

/// The file name of a document id, when it decodes and stays inside the folder.
pub fn resolve_name(id: &str) -> (r: Option<String>)
    requires
        decodable_id(id@),
    ensures
        r matches Some(s) ==> resolve_name_spec(id@) == Some(s@),
        r is None ==> resolve_name_spec(id@) is None,
{
    let name = match decode_id(id) {
        Some(n) => n,
        None => return None,
    };
    let v = chars_of(name.as_str());
    if contains_char(&v, '/') || contains_char(&v, '\\') || contains_dot_dot(&v) || contains_char(
        &v,
        ':',
    ) {
        return None;
    }
    Some(name)
}

/// Where an id leads in the folder `dir`: the folder joined with the name
/// the id resolves to, and that name.
pub open spec fn resolve_path_spec(dir: Seq<char>, id: Seq<char>) -> Option<(Seq<char>, Seq<char>)> {
    match resolve_name_spec(id) {
        Some(n) => Some((path_join(dir, n), n)),
        None => None,
    }
}

/// A crafted id cannot escape the shared folder: where an id leads is the
/// folder joined with one name that holds no path separator, no drive colon
/// and no `..`.
pub proof fn lemma_resolved_path_stays_inside(dir: Seq<char>, id: Seq<char>)
    ensures
        resolve_path_spec(dir, id) matches Some((p, n)) ==> {
            &&& p == path_join(dir, n)
            &&& !n.contains('/')
            &&& !n.contains('\\')
            &&& !n.contains(':')
            &&& forall|i: int| 0 <= i < n.len() - 1 ==> !(#[trigger] n[i] == '.' && n[i + 1] == '.')
        },
{
}

/// The views of a found document: its path and its name.
pub open spec fn found_view(r: Option<(String, String)>) -> Option<(Seq<char>, Seq<char>)> {
    match r {
        Some(f) => Some((f.0@, f.1@)),
        None => None,
    }
}

/// What `resolve` finds when the file system says `file_present` of the
/// candidate path: the candidate, if there is one and the file is there.
pub open spec fn resolved_with(dir: Seq<char>, id: Seq<char>, file_present: bool) -> Option<(Seq<char>, Seq<char>)> {
    if file_present {
        resolve_path_spec(dir, id)
    } else {
        None
    }
}

/// Every listed document can be opened: when its file is there, the id of
/// a non-empty safe name resolves to the folder joined with that name.
pub proof fn lemma_listed_document_found(dir: Seq<char>, name: Seq<char>)
    requires
        name.len() > 0,
        is_safe_name(name),
    ensures
        decodable_id(encode_id_spec(name)),
        resolved_with(dir, encode_id_spec(name), true) == Some((path_join(dir, name), name)),
{
    lemma_listed_name_resolves(name);
}

/// The candidate an id leads to in the folder `dir`, before the file system
/// is asked: the folder joined with the name, and the name.
pub fn resolve_candidate(dir: &str, id: &str) -> (r: Option<(String, String)>)
    requires
        decodable_id(id@),
    ensures
        found_view(r) == resolve_path_spec(dir@, id@),
{
    match resolve_name(id) {
        Some(name) => Some((paths::join(dir, name.as_str()), name)),
        None => None,
    }
}

/// What an id resolves to once the file system has said whether the
/// candidate path is a regular file: the candidate when it is, else `None`.
pub fn resolve_found(dir: &str, id: &str, file_present: bool) -> (r: Option<(String, String)>)
    requires
        decodable_id(id@),
    ensures
        found_view(r) == resolved_with(dir@, id@, file_present),
{
    if file_present {
        resolve_candidate(dir, id)
    } else {
        None
    }
}

/// Whether the candidate path (if any) is a regular file, asked of the file
/// system: a document with no candidate is not there.
pub(crate) fn candidate_present(candidate: &Option<(String, String)>) -> bool {
    match candidate {
        Some((path, _)) => paths::is_file(path.as_str()),
        None => false,
    }
}

/// Maps a document id back to a real path inside the shared folder `dir`.
///
/// Returns `None` for anything that would escape the folder (decoded names
/// containing a separator, `..`, or a drive letter) and for names that are
/// not a regular file in the folder. The file system is asked about the
/// candidate path, the folder joined with the name; the answer is as
/// `resolve_found` gives it for what the file system said.
pub fn resolve(dir: &str, id: &str) -> (r: Option<(String, String)>)
    requires
        decodable_id(id@),
    ensures
        exists|file_present: bool| found_view(r) == resolved_with(dir@, id@, file_present),
{
    let candidate = resolve_candidate(dir, id);
    let present = candidate_present(&candidate);
    resolve_found(dir, id, present)
}

} // verus!

verus! {

#[verifier::external_type_specification]
#[verifier::external_body]
pub struct ExFromUtf8Error(std::string::FromUtf8Error);

} // verus!
