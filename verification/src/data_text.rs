//! The readable form of data: a tag that tells objects from buffers, and bech32m text for
//! the bytes of a buffer.

use crate::data::{bytes_as_slice, bytes_contents, bytes_from_vec};
use crate::text::join2;
use bech32::primitives::checksum::Engine;
use bech32::primitives::decode::UncheckedHrpstring;
use bech32::primitives::iter::{ByteIterExt, Fe32IterExt};
use vstd::prelude::*;
use vstd::string::*;

verus! {

/// The human-readable part of the text of a buffer.
pub const PREFIX: &'static str = "data";

/// The tag of an object.
pub const OBJECT_TAG: &'static str = "object";

/// The tag of a buffer.
pub const BUFFER_TAG: &'static str = "buffer";

/// The residue that a valid bech32m code word leaves.
pub const BECH32M_RESIDUE: u32 = 0x2bc830a3;

/// The number of symbols in a bech32m checksum.
pub const CHECKSUM_SYMBOLS: usize = 6;

/// Text that can stand as the human-readable part: 1 to 83 printable ASCII characters.
pub open spec fn hrp_ok(hrp: Seq<char>) -> bool {
    &&& 1 <= hrp.len() <= 83
    &&& forall|i: int| 0 <= i < hrp.len() ==> 33 <= (#[trigger] hrp[i]) as u32 <= 126
}

/// No character is an upper-case letter.
pub open spec fn no_upper_case(s: Seq<char>) -> bool {
    forall|i: int| 0 <= i < s.len() ==> !('A' <= #[trigger] s[i] <= 'Z')
}

/// A symbol of the bech32 alphabet, in either case: a digit but `1`, or a letter but `b`, `i`
/// and `o`.
pub open spec fn is_symbol(b: u8) -> bool {
    ||| 48 <= b <= 57 && b != 49
    ||| 97 <= b <= 122 && b != 98 && b != 105 && b != 111
    ||| 65 <= b <= 90 && b != 66 && b != 73 && b != 79
}

/// Every byte is a symbol of the bech32 alphabet.
pub open spec fn all_symbols(s: Seq<u8>) -> bool {
    forall|i: int| 0 <= i < s.len() ==> is_symbol(#[trigger] s[i])
}

/// The human-readable part and the symbols behind the separator, or else why text does not
/// have that form.
pub uninterp spec fn hrpstring_parts(text: Seq<char>) -> Result<
    (Seq<char>, Seq<u8>),
    Seq<char>,
>;

/// The residue of the bech32m checksum over a human-readable part and symbols.
pub uninterp spec fn checksum_residue(hrp: Seq<char>, symbols: Seq<u8>) -> u32;

/// The bytes that symbols of five bits each stand for, without a last incomplete one.
pub uninterp spec fn symbol_bytes(symbols: Seq<u8>) -> Seq<u8>;

/// The bech32m text of a human-readable part and bytes.
pub uninterp spec fn bech32m_text(hrp: Seq<char>, data: Seq<u8>) -> Seq<char>;

/// `bech32::primitives::decode::UncheckedHrpstring::new`, with its `hrp` and
/// `data_part_ascii`: takes text apart at the last separator without looking at the
/// checksum, or says in the error's own words why it cannot. A human-readable part that comes back is a valid one, and everything behind
/// the separator is a symbol of the alphabet.
#[verifier::external_body]
fn split_hrpstring(text: &str) -> (r: Result<(String, Vec<u8>), String>)
    ensures
        r is Ok ==> hrpstring_parts(text@) == Ok::<(Seq<char>, Seq<u8>), Seq<char>>(
            ((r->Ok_0).0@, (r->Ok_0).1@),
        ),
        r is Err ==> hrpstring_parts(text@) == Err::<(Seq<char>, Seq<u8>), Seq<char>>(r->Err_0@),
        r is Ok ==> hrp_ok((r->Ok_0).0@) && all_symbols((r->Ok_0).1@),
{
    match UncheckedHrpstring::new(text) {
        Ok(parts) => Ok((parts.hrp().as_str().to_string(), parts.data_part_ascii().to_vec())),
        Err(error) => Err(error.to_string()),
    }
}

/// `bech32::primitives::checksum::Engine` for `bech32::Bech32m`: the residue after the
/// human-readable part and every symbol went in, whatever their number.
#[verifier::external_body]
fn residue_of(hrp: &str, symbols: &[u8]) -> (residue: u32)
    requires
        hrp_ok(hrp@),
        all_symbols(symbols@),
    ensures
        residue == checksum_residue(hrp@, symbols@),
{
    let mut engine = Engine::<bech32::Bech32m>::new();
    engine.input_hrp(bech32::Hrp::parse_unchecked(hrp));
    symbols.iter().for_each(|b| engine.input_fe(bech32::Fe32::from_char_unchecked(*b)));
    *engine.residue()
}

/// `bech32::primitives::iter::Fe32IterExt::fes_to_bytes`: regroups symbols of five bits into
/// bytes, and drops what does not fill one.
#[verifier::external_body]
fn bytes_of_symbols(symbols: &[u8]) -> (bytes: Vec<u8>)
    requires
        all_symbols(symbols@),
    ensures
        bytes@ == symbol_bytes(symbols@),
{
    symbols.iter().map(|b| bech32::Fe32::from_char_unchecked(*b)).fes_to_bytes().collect()
}

/// `bech32::primitives::iter::ByteIterExt::bytes_to_fes` and `with_checksum` for
/// `bech32::Bech32m`: the text of a human-readable part and bytes, whatever their number.
/// Taken apart again, the text of a part without upper-case letters gives that part, and
/// symbols whose residue is the valid one; without the checksum's symbols they stand for the
/// bytes.
#[verifier::external_body]
fn text_of(hrp: &str, data: &[u8]) -> (text: String)
    requires
        hrp_ok(hrp@),
        no_upper_case(hrp@),
    ensures
        text@ == bech32m_text(hrp@, data@),
        hrpstring_parts(text@) is Ok,
        (hrpstring_parts(text@)->Ok_0).0 == hrp@,
        (hrpstring_parts(text@)->Ok_0).1.len() >= CHECKSUM_SYMBOLS,
        checksum_residue(hrp@, (hrpstring_parts(text@)->Ok_0).1) == BECH32M_RESIDUE,
        symbol_bytes(
            (hrpstring_parts(text@)->Ok_0).1.take(
                (hrpstring_parts(text@)->Ok_0).1.len() - CHECKSUM_SYMBOLS,
            ),
        ) == data@,
{
    let hrp = bech32::Hrp::parse_unchecked(hrp);
    data.iter().copied().bytes_to_fes().with_checksum::<bech32::Bech32m>(&hrp).chars().collect()
}

/// Why text is not the readable form of a buffer.
#[derive(Debug, PartialEq, Eq)]
pub enum TextError {
    /// It is no text with a human-readable part and symbols; the reason is the parser's.
    Unparsable(String),
    /// It is too short for a checksum.
    InvalidLength,
    /// The checksum does not fit the rest.
    InvalidResidue,
    /// The human-readable part is another one.
    InvalidHrp(String),
    /// There are no bytes.
    Empty,
    /// The tag is neither that of an object nor that of a buffer.
    InvalidType(String),
}

impl TextError {
    /// The message of the error.
    pub fn message(&self) -> (text: String)
        ensures
            text@ == (match self {
                TextError::Unparsable(_) => "parse failed"@,
                TextError::InvalidLength => "invalid checksum"@,
                TextError::InvalidResidue => "invalid checksum"@,
                TextError::InvalidHrp(hrp) => "Invalid data HRP - "@ + hrp@,
                TextError::Empty => "Invalid bech32m data (empty)"@,
                TextError::InvalidType(tag) => "Invalid data type - "@ + tag@,
            }),
    {
        match self {
            TextError::Unparsable(_) => String::from_str("parse failed"),
            TextError::InvalidLength => String::from_str("invalid checksum"),
            TextError::InvalidResidue => String::from_str("invalid checksum"),
            TextError::InvalidHrp(hrp) => join2("Invalid data HRP - ", hrp.as_str()),
            TextError::Empty => String::from_str("Invalid bech32m data (empty)"),
            TextError::InvalidType(tag) => join2("Invalid data type - ", tag.as_str()),
        }
    }
}

/// How data is held, as its tag says.
#[derive(Copy, Clone, Debug, PartialEq, Eq, Structural)]
pub enum DataForm {
    Object,
    Buffer,
}

/// The tag of a form.
pub open spec fn tag_of(form: DataForm) -> Seq<char> {
    match form {
        DataForm::Object => OBJECT_TAG@,
        DataForm::Buffer => BUFFER_TAG@,
    }
}

/// The form that a tag stands for, where it is one.
pub open spec fn form_of(tag: Seq<char>) -> Option<DataForm> {
    if tag == OBJECT_TAG@ {
        Some(DataForm::Object)
    } else if tag == BUFFER_TAG@ {
        Some(DataForm::Buffer)
    } else {
        None
    }
}

/// The tag of a form stands for that form.
pub proof fn lemma_tag_roundtrip(form: DataForm)
    ensures
        form_of(tag_of(form)) == Some(form),
{
    reveal_strlit("object");
    reveal_strlit("buffer");
    assert(OBJECT_TAG@[0] != BUFFER_TAG@[0]);
}

impl DataForm {
    /// The tag of a form.
    pub fn tag(self) -> (tag: &'static str)
        ensures
            tag@ == tag_of(self),
            self is Object ==> tag@ == "object"@,
            self is Buffer ==> tag@ == "buffer"@,
    {
        match self {
            DataForm::Object => OBJECT_TAG,
            DataForm::Buffer => BUFFER_TAG,
        }
    }

    /// The form that a tag stands for.
    pub fn from_tag(tag: String) -> (r: Result<DataForm, TextError>)
        ensures
            form_of(tag@) is Some ==> r == Ok::<DataForm, TextError>(form_of(tag@)->0),
            form_of(tag@) is None ==> r == Err::<DataForm, TextError>(TextError::InvalidType(tag)),
            r == Ok::<DataForm, TextError>(DataForm::Object) <==> tag@ == "object"@,
            r == Ok::<DataForm, TextError>(DataForm::Buffer) <==> tag@ == "buffer"@,
            r is Err ==> r->Err_0 == TextError::InvalidType(tag),
    {
        proof {
            lemma_tag_roundtrip(DataForm::Buffer);
        }
        if tag == String::from_str(OBJECT_TAG) {
            Ok(DataForm::Object)
        } else if tag == String::from_str(BUFFER_TAG) {
            Ok(DataForm::Buffer)
        } else {
            Err(TextError::InvalidType(tag))
        }
    }
}

/// The human-readable part of a buffer's text is a valid one without upper-case letters.
proof fn lemma_prefix()
    ensures
        hrp_ok(PREFIX@),
        no_upper_case(PREFIX@),
{
    reveal_strlit("data");
}

/// The readable form of a buffer. It reads back as the buffer, except that the form of an
/// empty buffer is refused.
pub fn buffer_to_text(buffer: &bytes::Bytes) -> (text: String)
    ensures
        text@ == bech32m_text(PREFIX@, bytes_contents(*buffer)),
        text@ == bech32m_text("data"@, bytes_contents(*buffer)),
        bytes_contents(*buffer).len() > 0 ==> text_outcome(text@) == Ok::<Seq<u8>, TextFault>(
            bytes_contents(*buffer),
        ),
        bytes_contents(*buffer).len() == 0 ==> text_outcome(text@) == Err::<Seq<u8>, TextFault>(
            TextFault::Empty,
        ),
{
    proof {
        lemma_prefix();
    }
    text_of(PREFIX, bytes_as_slice(buffer))
}

/// The parts of a text and what the outside crate makes of them.
pub struct OpenedText {
    pub hrp: String,
    /// The residue of the checksum.
    pub residue: u32,
    /// The number of symbols, those of the checksum included.
    pub symbols: usize,
    /// The bytes that the symbols without the checksum's stand for.
    pub data: Vec<u8>,
}

/// What is wrong with a text.
pub ghost enum TextFault {
    Unparsable(Seq<char>),
    Length,
    Residue,
    Hrp(Seq<char>),
    Empty,
}

/// What the parts of a text come to: the bytes of a buffer, or what is wrong with it.
pub open spec fn opened_outcome(
    hrp: Seq<char>,
    residue: u32,
    symbols: int,
    data: Seq<u8>,
) -> Result<Seq<u8>, TextFault> {
    if symbols < CHECKSUM_SYMBOLS {
        Err(TextFault::Length)
    } else if residue != BECH32M_RESIDUE {
        Err(TextFault::Residue)
    } else if hrp != PREFIX@ {
        Err(TextFault::Hrp(hrp))
    } else if data.len() == 0 {
        Err(TextFault::Empty)
    } else {
        Ok(data)
    }
}

/// What a text comes to.
pub open spec fn text_outcome(text: Seq<char>) -> Result<Seq<u8>, TextFault> {
    match hrpstring_parts(text) {
        Err(reason) => Err(TextFault::Unparsable(reason)),
        Ok((hrp, symbols)) => opened_outcome(
            hrp,
            checksum_residue(hrp, symbols),
            symbols.len() as int,
            symbol_bytes(symbols.take(symbols.len() - CHECKSUM_SYMBOLS)),
        ),
    }
}

/// The result says what the outcome is.
pub open spec fn tells(r: Result<bytes::Bytes, TextError>, outcome: Result<Seq<u8>, TextFault>) -> bool {
    match outcome {
        Ok(data) => r is Ok && bytes_contents(r->Ok_0) == data,
        Err(TextFault::Unparsable(reason)) => r is Err && r->Err_0 is Unparsable
            && r->Err_0->Unparsable_0@ == reason,
        Err(TextFault::Length) => r == Err::<bytes::Bytes, TextError>(TextError::InvalidLength),
        Err(TextFault::Residue) => r == Err::<bytes::Bytes, TextError>(TextError::InvalidResidue),
        Err(TextFault::Hrp(hrp)) => r is Err && r->Err_0 is InvalidHrp && r->Err_0->InvalidHrp_0@
            == hrp,
        Err(TextFault::Empty) => r == Err::<bytes::Bytes, TextError>(TextError::Empty),
    }
}

/// The buffer that the parts of a text stand for.
pub fn buffer_from_opened(opened: OpenedText) -> (r: Result<bytes::Bytes, TextError>)
    ensures
        tells(
            r,
            opened_outcome(
                opened.hrp@,
                opened.residue,
                opened.symbols as int,
                opened.data@,
            ),
        ),
        r is Ok <==> opened.symbols >= 6 && opened.residue == 0x2bc830a3 && opened.hrp@ == "data"@
            && opened.data@.len() > 0,
        r is Ok ==> bytes_contents(r->Ok_0) == opened.data@,
        r is Err && r->Err_0 is InvalidLength <==> opened.symbols < 6,
        r is Err && r->Err_0 is InvalidResidue <==> opened.symbols >= 6 && opened.residue
            != 0x2bc830a3,
        r is Err && r->Err_0 is InvalidHrp <==> opened.symbols >= 6 && opened.residue == 0x2bc830a3
            && opened.hrp@ != "data"@,
        r is Err && r->Err_0 is InvalidHrp ==> r->Err_0->InvalidHrp_0@ == opened.hrp@,
        r is Err && r->Err_0 is Empty <==> opened.symbols >= 6 && opened.residue == 0x2bc830a3
            && opened.hrp@ == "data"@ && opened.data@.len() == 0,
{
    if opened.symbols < CHECKSUM_SYMBOLS {
        return Err(TextError::InvalidLength);
    }
    if opened.residue != BECH32M_RESIDUE {
        return Err(TextError::InvalidResidue);
    }
    if opened.hrp != String::from_str(PREFIX) {
        return Err(TextError::InvalidHrp(opened.hrp));
    }
    if opened.data.len() == 0 {
        return Err(TextError::Empty);
    }
    Ok(bytes_from_vec(opened.data))
}

/// The buffer that a text is the readable form of.
pub fn buffer_from_text(text: &str) -> (r: Result<bytes::Bytes, TextError>)
    ensures
        tells(r, text_outcome(text@)),
        r is Err && r->Err_0 is Unparsable <==> hrpstring_parts(text@) is Err,
        r is Err && r->Err_0 is Unparsable ==> r->Err_0->Unparsable_0@ == hrpstring_parts(
            text@,
        )->Err_0,
        hrpstring_parts(text@) is Ok ==> {
            let (hrp, symbols) = hrpstring_parts(text@)->Ok_0;
            let data = symbol_bytes(symbols.take(symbols.len() - 6));
            let intact = symbols.len() >= 6 && checksum_residue(hrp, symbols) == 0x2bc830a3;
            &&& r is Ok <==> intact && hrp == "data"@ && data.len() > 0
            &&& r is Ok ==> bytes_contents(r->Ok_0) == data
            &&& r is Err && r->Err_0 is InvalidLength <==> symbols.len() < 6
            &&& r is Err && r->Err_0 is InvalidResidue <==> symbols.len() >= 6 && !intact
            &&& r is Err && r->Err_0 is InvalidHrp <==> intact && hrp != "data"@
            &&& r is Err && r->Err_0 is InvalidHrp ==> r->Err_0->InvalidHrp_0@ == hrp
            &&& r is Err && r->Err_0 is Empty <==> intact && hrp == "data"@ && data.len() == 0
        },
{
    let (hrp, symbols) = match split_hrpstring(text) {
        Ok(parts) => parts,
        Err(reason) => {
            return Err(TextError::Unparsable(reason));
        },
    };
    let n: usize = symbols.len();
    let residue: u32 = residue_of(hrp.as_str(), symbols.as_slice());
    let mut payload: Vec<u8> = symbols;
    if n >= CHECKSUM_SYMBOLS {
        payload.truncate(n - CHECKSUM_SYMBOLS);
        assert(payload@ =~= symbols@.take(n - CHECKSUM_SYMBOLS));
    }
    assert(all_symbols(payload@));
    let data: Vec<u8> = bytes_of_symbols(payload.as_slice());
    buffer_from_opened(OpenedText { hrp, residue, symbols: n, data })
}

/// Text is taken for data only where it is intact: it comes apart into the part `data` and at
/// least six symbols, the checksum over all of them fits, whatever their number, and the bytes
/// in front of the checksum are not none. What comes back is those bytes.
pub proof fn lemma_accepted_text_is_intact(text: Seq<char>)
    ensures
        text_outcome(text) is Ok <==> hrpstring_parts(text) is Ok && {
            let (hrp, symbols) = hrpstring_parts(text)->Ok_0;
            &&& symbols.len() >= 6
            &&& checksum_residue(hrp, symbols) == 0x2bc830a3
            &&& hrp == "data"@
            &&& symbol_bytes(symbols.take(symbols.len() - 6)).len() > 0
        },
        text_outcome(text) is Ok ==> {
            let (_, symbols) = hrpstring_parts(text)->Ok_0;
            text_outcome(text)->Ok_0 == symbol_bytes(symbols.take(symbols.len() - 6))
        },
        hrpstring_parts(text) is Ok && checksum_residue(
            (hrpstring_parts(text)->Ok_0).0,
            (hrpstring_parts(text)->Ok_0).1,
        ) != 0x2bc830a3 ==> text_outcome(text) is Err,
{
}

} // verus!
