use vstd::prelude::*;

verus! {

/// A position in the input: `(row, column)`, both counted from zero.
pub type Position = (usize, usize);

/// A range of positions `(start, end)`, both ends included.
pub type PosRange = (Position, Position);

/// Errors in the text itself: a token that does not fit the JSON with comments grammar.
#[derive(Debug, PartialEq, Eq)]
pub enum SyntaxError {
    UnexpectedTokenWhileParsingValue { pos: Position, found: u8 },
    UnexpectedTokenWhileStartParsingString { pos: Position, found: u8 },
    UnexpectedTokenWhileStartParsingBytes { pos: Position, found: u8 },
    UnexpectedTokenWhileParsingString { pos: Position, found: u8 },
    UnexpectedTokenWhileEndParsingString { pos: Position, found: u8 },
    UnexpectedTokenWhileStartParsingEscapeSequence { pos: Position, found: u8 },
    UnexpectedTokenWhileStartParsingNumber { pos: Position, found: u8 },
    UnexpectedTokenWhileParsingBool { pos: Position, found: u8 },
    UnexpectedTokenWhileParsingNull { pos: Position, found: u8 },
    UnexpectedTokenWhileStartParsingObject { pos: Position, found: u8 },
    UnexpectedTokenWhileEndParsingObject { pos: Position, found: u8 },
    UnexpectedTokenWhileParsingObjectKey { pos: Position, found: u8 },
    UnexpectedTokenWhileStartParsingObjectValue { pos: Position, found: u8 },
    UnexpectedTokenWhileEndParsingObjectValue { pos: Position, found: u8 },
    UnexpectedTokenWhileStartParsingArray { pos: Position, found: u8 },
    UnexpectedTokenWhileEndParsingArray { pos: Position, found: u8 },
    UnexpectedTokenWhileParsingArrayValue { pos: Position, found: u8 },
    UnexpectedTokenWhileStartParsingEnum { pos: Position, found: u8 },
    UnexpectedTokenWhileEndParsingEnum { pos: Position, found: u8 },
    UnexpectedTokenWhileStartParsingEnumValue { pos: Position, found: u8 },
    UnexpectedTokenWhileStartParsingComment { pos: Position, found: u8 },
    UnexpectedTokenWhileEndParsingComment { pos: Position, found: u8 },
    EofWhileStartParsingValue,
    EofWhileStartParsingString,
    EofWhileEndParsingString,
    EofWhileStartParsingBytes,
    EofWhileParsingEscapeSequence,
    EofWhileStartParsingNumber,
    EofWhileStartParsingFraction,
    EofWhileStartParsingExponent,
    EofWhileParsingNumber,
    EofWhileStartParsingBool,
    EofWhileStartParsingNull,
    EofWhileStartParsingObject,
    EofWhileEndParsingObject,
    EofWhileParsingObjectKey,
    EofWhileParsingObjectValue,
    EofWhileStartParsingArray,
    EofWhileEndParsingArray,
    EofWhileParsingIdent,
    EofWhileStartParsingEnum,
    EofWhileEndParsingEnum,
    EofWhileStartParsingComment,
    UnexpectedIdent { pos: PosRange, expected: Vec<u8>, found: Vec<u8> },
    ExpectedEof { pos: Position, found: u8 },
    ControlCharacterWhileParsingString { pos: Position, c: u8 },
    InvalidEscapeSequence { pos: Position, found: u8 },
    InvalidUnicodeEscape { pos: Position, found: u8 },
    CannotConvertChar { pos: Position, char: u32 },
    InvalidLeadingPlus { pos: Position },
    InvalidLeadingZeros { pos: Position },
    MissingExponent { pos: Position, found: u8 },
    MissingFraction { pos: Position, found: u8 },
    UnterminatedComment,
}

/// Errors in what a well formed text means for the requested value.
#[derive(Debug, PartialEq, Eq)]
pub enum SemanticError {
    ExpectStruct { pos: Position, found: u8 },
    AnyMapKey,
    EmptyJsonWithComment,
    InvalidNumber { pos: Position, rep: String },
}

/// Errors in converting one number type into another.
#[derive(Debug, PartialEq, Eq)]
pub enum ConvertError {
    CannotConvertFloatToInteger,
    CannotConvertIntegerToFloat,
    InvalidIntegerConvert,
    InvalidFloatConvert,
}

/// Errors in taking a value as a representation it does not have.
#[derive(Debug, PartialEq, Eq)]
pub enum InvalidRepresentsValue {
    ShouldObject,
    ShouldArray,
    ShouldBool,
    ShouldNull,
    ShouldString,
    ShouldNumber,
}

/// Errors in indexing a value.
#[derive(Debug, PartialEq, Eq)]
pub enum IndexError {
    StringIndex { value: String },
    UsizeIndex { value: String },
    SliceIndex { value: String },
    NotExistKey { key: String },
}

/// Internal states that the code rules out; kept so that callers can name them.
#[derive(Debug, PartialEq, Eq)]
pub enum Ensure {
    NextAfterPeek,
    EatAfterLook,
    NextValue,
    EmptyError,
    OwnedString,
    CanConvertAlways,
    UnitVariant,
    SeqLikeVariant,
    MapLikeVariant,
}

/// What went wrong, by family.
#[derive(Debug, PartialEq, Eq)]
pub enum ErrorKind {
    Syntax(SyntaxError),
    Semantic(SemanticError),
    Convert(ConvertError),
    InvalidRepresents(InvalidRepresentsValue),
    Index(IndexError),
    Ensure(Ensure),
    /// Bytes that are not valid UTF-8 where a string was expected.
    InvalidUtf8,
    /// A message from outside the library (a reader, a writer, a serde data type).
    Custom(String),
}

/// The error type of this library.
#[derive(Debug, PartialEq, Eq)]
pub struct JsonWithCommentsError {
    inner: ErrorKind,
}

impl View for JsonWithCommentsError {
    type V = ErrorKind;

    closed spec fn view(&self) -> ErrorKind {
        self.inner
    }
}

impl JsonWithCommentsError {
    /// The error of kind `kind`.
    pub closed spec fn of(kind: ErrorKind) -> Self {
        JsonWithCommentsError { inner: kind }
    }

    /// The error of a kind is of that kind.
    pub proof fn lemma_of(kind: ErrorKind)
        ensures
            Self::of(kind)@ == kind,
    {
    }

    pub fn new(err: ErrorKind) -> (r: Self)
        ensures
            r@ == err,
            r == Self::of(err),
    {
        JsonWithCommentsError { inner: err }
    }

    pub fn into_inner(self) -> (r: ErrorKind)
        ensures
            r == self@,
    {
        self.inner
    }

    pub fn syntax(err: SyntaxError) -> (r: Self)
        ensures
            r@ == ErrorKind::Syntax(err),
    {
        JsonWithCommentsError { inner: ErrorKind::Syntax(err) }
    }
}

} // verus!
