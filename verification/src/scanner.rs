//! Lexical tokens produced by libvala's scanner.

use vstd::prelude::*;

use crate::source::SourceLocation;

verus! {

/// A Vala lexical token kind, mirroring libvala's `ValaTokenType`.
///
/// Variants span keywords, literals, identifiers, operators and punctuation.
#[derive(Debug, Clone, Copy, PartialEq, Eq, Structural, Hash)]
#[allow(missing_docs)]
pub enum TokenType {
    NoToken,
    Abstract,
    As,
    Assign,
    AssignAdd,
    AssignBitwiseAnd,
    AssignBitwiseOr,
    AssignBitwiseXor,
    AssignDiv,
    AssignMul,
    AssignPercent,
    AssignShiftLeft,
    AssignSub,
    Async,
    Base,
    BitwiseAnd,
    BitwiseOr,
    Break,
    Carret,
    Case,
    Catch,
    CharacterLiteral,
    Class,
    CloseBrace,
    CloseBracket,
    CloseParens,
    CloseRegexLiteral,
    CloseTemplate,
    Colon,
    Comma,
    Const,
    Construct,
    Continue,
    Default,
    Delegate,
    Delete,
    Div,
    Do,
    DoubleColon,
    Dot,
    Dynamic,
    Ellipsis,
    Else,
    Enum,
    Ensures,
    Errordomain,
    Eof,
    Extern,
    False,
    Finally,
    For,
    Foreach,
    Get,
    Hash,
    Identifier,
    If,
    In,
    Inline,
    IntegerLiteral,
    Interface,
    Internal,
    Interr,
    Is,
    Lambda,
    Lock,
    Minus,
    Namespace,
    New,
    Null,
    Out,
    OpAnd,
    OpCoalescing,
    OpDec,
    OpEq,
    OpGe,
    OpGt,
    OpInc,
    OpLe,
    OpLt,
    OpNe,
    OpNeg,
    OpOr,
    OpPtr,
    OpShiftLeft,
    OpenBrace,
    OpenBracket,
    OpenParens,
    OpenRegexLiteral,
    OpenTemplate,
    Override,
    Owned,
    Params,
    Partial,
    Percent,
    Plus,
    Private,
    Protected,
    Public,
    RealLiteral,
    Ref,
    RegexLiteral,
    Requires,
    Return,
    Sealed,
    Semicolon,
    SetAccessor,
    Signal,
    Sizeof,
    Star,
    Static,
    StringLiteral,
    Struct,
    Switch,
    TemplateStringLiteral,
    This,
    Throw,
    Throws,
    Tilde,
    True,
    Try,
    Typeof,
    Unlock,
    Unowned,
    Using,
    Var,
    VerbatimStringLiteral,
    Virtual,
    Void,
    Volatile,
    Weak,
    While,
    With,
    Yield,
}

/// The number of token kinds.
pub const TOKEN_TYPE_COUNT: u32 = 133;

/// The `ValaTokenType` value of each kind: libvala numbers the kinds from 0 in
/// the order they are declared.
pub open spec fn raw_code(t: TokenType) -> u32 {
    match t {
        TokenType::NoToken => 0,
        TokenType::Abstract => 1,
        TokenType::As => 2,
        TokenType::Assign => 3,
        TokenType::AssignAdd => 4,
        TokenType::AssignBitwiseAnd => 5,
        TokenType::AssignBitwiseOr => 6,
        TokenType::AssignBitwiseXor => 7,
        TokenType::AssignDiv => 8,
        TokenType::AssignMul => 9,
        TokenType::AssignPercent => 10,
        TokenType::AssignShiftLeft => 11,
        TokenType::AssignSub => 12,
        TokenType::Async => 13,
        TokenType::Base => 14,
        TokenType::BitwiseAnd => 15,
        TokenType::BitwiseOr => 16,
        TokenType::Break => 17,
        TokenType::Carret => 18,
        TokenType::Case => 19,
        TokenType::Catch => 20,
        TokenType::CharacterLiteral => 21,
        TokenType::Class => 22,
        TokenType::CloseBrace => 23,
        TokenType::CloseBracket => 24,
        TokenType::CloseParens => 25,
        TokenType::CloseRegexLiteral => 26,
        TokenType::CloseTemplate => 27,
        TokenType::Colon => 28,
        TokenType::Comma => 29,
        TokenType::Const => 30,
        TokenType::Construct => 31,
        TokenType::Continue => 32,
        TokenType::Default => 33,
        TokenType::Delegate => 34,
        TokenType::Delete => 35,
        TokenType::Div => 36,
        TokenType::Do => 37,
        TokenType::DoubleColon => 38,
        TokenType::Dot => 39,
        TokenType::Dynamic => 40,
        TokenType::Ellipsis => 41,
        TokenType::Else => 42,
        TokenType::Enum => 43,
        TokenType::Ensures => 44,
        TokenType::Errordomain => 45,
        TokenType::Eof => 46,
        TokenType::Extern => 47,
        TokenType::False => 48,
        TokenType::Finally => 49,
        TokenType::For => 50,
        TokenType::Foreach => 51,
        TokenType::Get => 52,
        TokenType::Hash => 53,
        TokenType::Identifier => 54,
        TokenType::If => 55,
        TokenType::In => 56,
        TokenType::Inline => 57,
        TokenType::IntegerLiteral => 58,
        TokenType::Interface => 59,
        TokenType::Internal => 60,
        TokenType::Interr => 61,
        TokenType::Is => 62,
        TokenType::Lambda => 63,
        TokenType::Lock => 64,
        TokenType::Minus => 65,
        TokenType::Namespace => 66,
        TokenType::New => 67,
        TokenType::Null => 68,
        TokenType::Out => 69,
        TokenType::OpAnd => 70,
        TokenType::OpCoalescing => 71,
        TokenType::OpDec => 72,
        TokenType::OpEq => 73,
        TokenType::OpGe => 74,
        TokenType::OpGt => 75,
        TokenType::OpInc => 76,
        TokenType::OpLe => 77,
        TokenType::OpLt => 78,
        TokenType::OpNe => 79,
        TokenType::OpNeg => 80,
        TokenType::OpOr => 81,
        TokenType::OpPtr => 82,
        TokenType::OpShiftLeft => 83,
        TokenType::OpenBrace => 84,
        TokenType::OpenBracket => 85,
        TokenType::OpenParens => 86,
        TokenType::OpenRegexLiteral => 87,
        TokenType::OpenTemplate => 88,
        TokenType::Override => 89,
        TokenType::Owned => 90,
        TokenType::Params => 91,
        TokenType::Partial => 92,
        TokenType::Percent => 93,
        TokenType::Plus => 94,
        TokenType::Private => 95,
        TokenType::Protected => 96,
        TokenType::Public => 97,
        TokenType::RealLiteral => 98,
        TokenType::Ref => 99,
        TokenType::RegexLiteral => 100,
        TokenType::Requires => 101,
        TokenType::Return => 102,
        TokenType::Sealed => 103,
        TokenType::Semicolon => 104,
        TokenType::SetAccessor => 105,
        TokenType::Signal => 106,
        TokenType::Sizeof => 107,
        TokenType::Star => 108,
        TokenType::Static => 109,
        TokenType::StringLiteral => 110,
        TokenType::Struct => 111,
        TokenType::Switch => 112,
        TokenType::TemplateStringLiteral => 113,
        TokenType::This => 114,
        TokenType::Throw => 115,
        TokenType::Throws => 116,
        TokenType::Tilde => 117,
        TokenType::True => 118,
        TokenType::Try => 119,
        TokenType::Typeof => 120,
        TokenType::Unlock => 121,
        TokenType::Unowned => 122,
        TokenType::Using => 123,
        TokenType::Var => 124,
        TokenType::VerbatimStringLiteral => 125,
        TokenType::Virtual => 126,
        TokenType::Void => 127,
        TokenType::Volatile => 128,
        TokenType::Weak => 129,
        TokenType::While => 130,
        TokenType::With => 131,
        TokenType::Yield => 132,
    }
}

/// Distinct kinds have distinct codes, all below [`TOKEN_TYPE_COUNT`].
pub proof fn lemma_raw_code_injective(a: TokenType, b: TokenType)
    ensures
        raw_code(a) < TOKEN_TYPE_COUNT,
        raw_code(a) == raw_code(b) ==> a == b,
{
}

/// Converting the code of a kind gives back the kind.
pub proof fn lemma_from_raw_round_trip(t: TokenType, r: TokenType)
    requires
        raw_code(t) < TOKEN_TYPE_COUNT ==> raw_code(r) == raw_code(t),
    ensures
        r == t,
{
    lemma_raw_code_injective(t, r);
}

/// libvala numbers its token kinds from 0 in the order it declares them:
/// `none`, `abstract`, `as`, ... `for` (50), `foreach` (51), ... `yield`
/// (132). Each kind's code, as [`TokenType::from_raw`] reads it.
pub proof fn lemma_token_codes()
    ensures
        raw_code(TokenType::NoToken) == 0,
        raw_code(TokenType::Abstract) == 1,
        raw_code(TokenType::As) == 2,
        raw_code(TokenType::Assign) == 3,
        raw_code(TokenType::AssignAdd) == 4,
        raw_code(TokenType::AssignBitwiseAnd) == 5,
        raw_code(TokenType::AssignBitwiseOr) == 6,
        raw_code(TokenType::AssignBitwiseXor) == 7,
        raw_code(TokenType::AssignDiv) == 8,
        raw_code(TokenType::AssignMul) == 9,
        raw_code(TokenType::AssignPercent) == 10,
        raw_code(TokenType::AssignShiftLeft) == 11,
        raw_code(TokenType::AssignSub) == 12,
        raw_code(TokenType::Async) == 13,
        raw_code(TokenType::Base) == 14,
        raw_code(TokenType::BitwiseAnd) == 15,
        raw_code(TokenType::BitwiseOr) == 16,
        raw_code(TokenType::Break) == 17,
        raw_code(TokenType::Carret) == 18,
        raw_code(TokenType::Case) == 19,
        raw_code(TokenType::Catch) == 20,
        raw_code(TokenType::CharacterLiteral) == 21,
        raw_code(TokenType::Class) == 22,
        raw_code(TokenType::CloseBrace) == 23,
        raw_code(TokenType::CloseBracket) == 24,
        raw_code(TokenType::CloseParens) == 25,
        raw_code(TokenType::CloseRegexLiteral) == 26,
        raw_code(TokenType::CloseTemplate) == 27,
        raw_code(TokenType::Colon) == 28,
        raw_code(TokenType::Comma) == 29,
        raw_code(TokenType::Const) == 30,
        raw_code(TokenType::Construct) == 31,
        raw_code(TokenType::Continue) == 32,
        raw_code(TokenType::Default) == 33,
        raw_code(TokenType::Delegate) == 34,
        raw_code(TokenType::Delete) == 35,
        raw_code(TokenType::Div) == 36,
        raw_code(TokenType::Do) == 37,
        raw_code(TokenType::DoubleColon) == 38,
        raw_code(TokenType::Dot) == 39,
        raw_code(TokenType::Dynamic) == 40,
        raw_code(TokenType::Ellipsis) == 41,
        raw_code(TokenType::Else) == 42,
        raw_code(TokenType::Enum) == 43,
        raw_code(TokenType::Ensures) == 44,
        raw_code(TokenType::Errordomain) == 45,
        raw_code(TokenType::Eof) == 46,
        raw_code(TokenType::Extern) == 47,
        raw_code(TokenType::False) == 48,
        raw_code(TokenType::Finally) == 49,
        raw_code(TokenType::For) == 50,
        raw_code(TokenType::Foreach) == 51,
        raw_code(TokenType::Get) == 52,
        raw_code(TokenType::Hash) == 53,
        raw_code(TokenType::Identifier) == 54,
        raw_code(TokenType::If) == 55,
        raw_code(TokenType::In) == 56,
        raw_code(TokenType::Inline) == 57,
        raw_code(TokenType::IntegerLiteral) == 58,
        raw_code(TokenType::Interface) == 59,
        raw_code(TokenType::Internal) == 60,
        raw_code(TokenType::Interr) == 61,
        raw_code(TokenType::Is) == 62,
        raw_code(TokenType::Lambda) == 63,
        raw_code(TokenType::Lock) == 64,
        raw_code(TokenType::Minus) == 65,
        raw_code(TokenType::Namespace) == 66,
        raw_code(TokenType::New) == 67,
        raw_code(TokenType::Null) == 68,
        raw_code(TokenType::Out) == 69,
        raw_code(TokenType::OpAnd) == 70,
        raw_code(TokenType::OpCoalescing) == 71,
        raw_code(TokenType::OpDec) == 72,
        raw_code(TokenType::OpEq) == 73,
        raw_code(TokenType::OpGe) == 74,
        raw_code(TokenType::OpGt) == 75,
        raw_code(TokenType::OpInc) == 76,
        raw_code(TokenType::OpLe) == 77,
        raw_code(TokenType::OpLt) == 78,
        raw_code(TokenType::OpNe) == 79,
        raw_code(TokenType::OpNeg) == 80,
        raw_code(TokenType::OpOr) == 81,
        raw_code(TokenType::OpPtr) == 82,
        raw_code(TokenType::OpShiftLeft) == 83,
        raw_code(TokenType::OpenBrace) == 84,
        raw_code(TokenType::OpenBracket) == 85,
        raw_code(TokenType::OpenParens) == 86,
        raw_code(TokenType::OpenRegexLiteral) == 87,
        raw_code(TokenType::OpenTemplate) == 88,
        raw_code(TokenType::Override) == 89,
        raw_code(TokenType::Owned) == 90,
        raw_code(TokenType::Params) == 91,
        raw_code(TokenType::Partial) == 92,
        raw_code(TokenType::Percent) == 93,
        raw_code(TokenType::Plus) == 94,
        raw_code(TokenType::Private) == 95,
        raw_code(TokenType::Protected) == 96,
        raw_code(TokenType::Public) == 97,
        raw_code(TokenType::RealLiteral) == 98,
        raw_code(TokenType::Ref) == 99,
        raw_code(TokenType::RegexLiteral) == 100,
        raw_code(TokenType::Requires) == 101,
        raw_code(TokenType::Return) == 102,
        raw_code(TokenType::Sealed) == 103,
        raw_code(TokenType::Semicolon) == 104,
        raw_code(TokenType::SetAccessor) == 105,
        raw_code(TokenType::Signal) == 106,
        raw_code(TokenType::Sizeof) == 107,
        raw_code(TokenType::Star) == 108,
        raw_code(TokenType::Static) == 109,
        raw_code(TokenType::StringLiteral) == 110,
        raw_code(TokenType::Struct) == 111,
        raw_code(TokenType::Switch) == 112,
        raw_code(TokenType::TemplateStringLiteral) == 113,
        raw_code(TokenType::This) == 114,
        raw_code(TokenType::Throw) == 115,
        raw_code(TokenType::Throws) == 116,
        raw_code(TokenType::Tilde) == 117,
        raw_code(TokenType::True) == 118,
        raw_code(TokenType::Try) == 119,
        raw_code(TokenType::Typeof) == 120,
        raw_code(TokenType::Unlock) == 121,
        raw_code(TokenType::Unowned) == 122,
        raw_code(TokenType::Using) == 123,
        raw_code(TokenType::Var) == 124,
        raw_code(TokenType::VerbatimStringLiteral) == 125,
        raw_code(TokenType::Virtual) == 126,
        raw_code(TokenType::Void) == 127,
        raw_code(TokenType::Volatile) == 128,
        raw_code(TokenType::Weak) == 129,
        raw_code(TokenType::While) == 130,
        raw_code(TokenType::With) == 131,
        raw_code(TokenType::Yield) == 132,
{
}

impl TokenType {
    /// Convert a raw libvala `ValaTokenType`. Unknown values (e.g. from a
    /// newer libvala than this crate was built against) map to
    /// [`TokenType::NoToken`].
    pub fn from_raw(raw: u32) -> (r: Self)
        ensures
            raw < TOKEN_TYPE_COUNT ==> raw_code(r) == raw,
            raw >= TOKEN_TYPE_COUNT ==> r == TokenType::NoToken,
    {
        match raw {
            0 => TokenType::NoToken,
            1 => TokenType::Abstract,
            2 => TokenType::As,
            3 => TokenType::Assign,
            4 => TokenType::AssignAdd,
            5 => TokenType::AssignBitwiseAnd,
            6 => TokenType::AssignBitwiseOr,
            7 => TokenType::AssignBitwiseXor,
            8 => TokenType::AssignDiv,
            9 => TokenType::AssignMul,
            10 => TokenType::AssignPercent,
            11 => TokenType::AssignShiftLeft,
            12 => TokenType::AssignSub,
            13 => TokenType::Async,
            14 => TokenType::Base,
            15 => TokenType::BitwiseAnd,
            16 => TokenType::BitwiseOr,
            17 => TokenType::Break,
            18 => TokenType::Carret,
            19 => TokenType::Case,
            20 => TokenType::Catch,
            21 => TokenType::CharacterLiteral,
            22 => TokenType::Class,
            23 => TokenType::CloseBrace,
            24 => TokenType::CloseBracket,
            25 => TokenType::CloseParens,
            26 => TokenType::CloseRegexLiteral,
            27 => TokenType::CloseTemplate,
            28 => TokenType::Colon,
            29 => TokenType::Comma,
            30 => TokenType::Const,
            31 => TokenType::Construct,
            32 => TokenType::Continue,
            33 => TokenType::Default,
            34 => TokenType::Delegate,
            35 => TokenType::Delete,
            36 => TokenType::Div,
            37 => TokenType::Do,
            38 => TokenType::DoubleColon,
            39 => TokenType::Dot,
            40 => TokenType::Dynamic,
            41 => TokenType::Ellipsis,
            42 => TokenType::Else,
            43 => TokenType::Enum,
            44 => TokenType::Ensures,
            45 => TokenType::Errordomain,
            46 => TokenType::Eof,
            47 => TokenType::Extern,
            48 => TokenType::False,
            49 => TokenType::Finally,
            50 => TokenType::For,
            51 => TokenType::Foreach,
            52 => TokenType::Get,
            53 => TokenType::Hash,
            54 => TokenType::Identifier,
            55 => TokenType::If,
            56 => TokenType::In,
            57 => TokenType::Inline,
            58 => TokenType::IntegerLiteral,
            59 => TokenType::Interface,
            60 => TokenType::Internal,
            61 => TokenType::Interr,
            62 => TokenType::Is,
            63 => TokenType::Lambda,
            64 => TokenType::Lock,
            65 => TokenType::Minus,
            66 => TokenType::Namespace,
            67 => TokenType::New,
            68 => TokenType::Null,
            69 => TokenType::Out,
            70 => TokenType::OpAnd,
            71 => TokenType::OpCoalescing,
            72 => TokenType::OpDec,
            73 => TokenType::OpEq,
            74 => TokenType::OpGe,
            75 => TokenType::OpGt,
            76 => TokenType::OpInc,
            77 => TokenType::OpLe,
            78 => TokenType::OpLt,
            79 => TokenType::OpNe,
            80 => TokenType::OpNeg,
            81 => TokenType::OpOr,
            82 => TokenType::OpPtr,
            83 => TokenType::OpShiftLeft,
            84 => TokenType::OpenBrace,
            85 => TokenType::OpenBracket,
            86 => TokenType::OpenParens,
            87 => TokenType::OpenRegexLiteral,
            88 => TokenType::OpenTemplate,
            89 => TokenType::Override,
            90 => TokenType::Owned,
            91 => TokenType::Params,
            92 => TokenType::Partial,
            93 => TokenType::Percent,
            94 => TokenType::Plus,
            95 => TokenType::Private,
            96 => TokenType::Protected,
            97 => TokenType::Public,
            98 => TokenType::RealLiteral,
            99 => TokenType::Ref,
            100 => TokenType::RegexLiteral,
            101 => TokenType::Requires,
            102 => TokenType::Return,
            103 => TokenType::Sealed,
            104 => TokenType::Semicolon,
            105 => TokenType::SetAccessor,
            106 => TokenType::Signal,
            107 => TokenType::Sizeof,
            108 => TokenType::Star,
            109 => TokenType::Static,
            110 => TokenType::StringLiteral,
            111 => TokenType::Struct,
            112 => TokenType::Switch,
            113 => TokenType::TemplateStringLiteral,
            114 => TokenType::This,
            115 => TokenType::Throw,
            116 => TokenType::Throws,
            117 => TokenType::Tilde,
            118 => TokenType::True,
            119 => TokenType::Try,
            120 => TokenType::Typeof,
            121 => TokenType::Unlock,
            122 => TokenType::Unowned,
            123 => TokenType::Using,
            124 => TokenType::Var,
            125 => TokenType::VerbatimStringLiteral,
            126 => TokenType::Virtual,
            127 => TokenType::Void,
            128 => TokenType::Volatile,
            129 => TokenType::Weak,
            130 => TokenType::While,
            131 => TokenType::With,
            132 => TokenType::Yield,
            _ => TokenType::NoToken,
        }
    }
}

/// A single lexical token: its kind and the source range it spans.
#[derive(Debug, Clone, Copy, PartialEq, Eq, Structural)]
pub struct Token {
    /// The lexical category of the token.
    pub token_type: TokenType,
    /// Start position (1-based line/column).
    pub begin: SourceLocation,
    /// End position. As elsewhere in libvala the end column is inclusive of the
    /// last character.
    pub end: SourceLocation,
}

/// Whether `t` is the token that a read with kind code `raw` over
/// `begin..end` stands for: unknown codes read as [`TokenType::NoToken`].
pub open spec fn reads_as(t: Token, raw: u32, begin: SourceLocation, end: SourceLocation) -> bool {
    &&& t.begin == begin
    &&& t.end == end
    &&& raw < TOKEN_TYPE_COUNT ==> raw_code(t.token_type) == raw
    &&& raw >= TOKEN_TYPE_COUNT ==> t.token_type == TokenType::NoToken
}

/// A read stands for one token at most.
pub proof fn lemma_reads_as_unique(
    a: Token,
    b: Token,
    raw: u32,
    begin: SourceLocation,
    end: SourceLocation,
)
    requires
        reads_as(a, raw, begin, end),
        reads_as(b, raw, begin, end),
    ensures
        a == b,
{
    lemma_raw_code_injective(a.token_type, b.token_type);
}

impl Token {
    /// The token libvala's scanner reported with kind code `raw` over
    /// `begin..end`, or `None` when the code is the end-of-file kind, which
    /// ends the token stream.
    pub fn from_raw(raw: u32, begin: SourceLocation, end: SourceLocation) -> (r: Option<Token>)
        ensures
            raw == raw_code(TokenType::Eof) ==> r is None,
            raw != raw_code(TokenType::Eof) ==> (r matches Some(t) && reads_as(t, raw, begin, end)),
    {
        let token_type = TokenType::from_raw(raw);
        if token_type == TokenType::Eof {
            proof {
                lemma_raw_code_injective(TokenType::Eof, token_type);
            }
            return None;
        }
        Some(Token { token_type, begin, end })
    }
}

/// Whether `t` is the token that `read`, a kind code with its start and end,
/// stands for, the read not being the end of the file.
pub open spec fn token_read(read: (u32, SourceLocation, SourceLocation), t: Token) -> bool {
    read.0 != raw_code(TokenType::Eof) && reads_as(t, read.0, read.1, read.2)
}

/// Whether `toks` are the tokens that the first `toks.len()` of `reads`
/// stand for, none of those reads being the end of the file.
pub open spec fn tokens_of_reads(
    reads: Seq<(u32, SourceLocation, SourceLocation)>,
    toks: Seq<Token>,
) -> bool {
    &&& toks.len() <= reads.len()
    &&& forall|k: int| 0 <= k < toks.len() ==> #[trigger] token_read(reads[k], toks[k])
}

/// The tokens of a stream of scanner reads, each a kind code with its start
/// and end: every read up to the first end-of-file one, which ends the stream.
pub fn tokens_from_reads(reads: &Vec<(u32, SourceLocation, SourceLocation)>) -> (r: Vec<Token>)
    ensures
        tokens_of_reads(reads@, r@),
        r.len() < reads.len() ==> reads[r.len() as int].0 == raw_code(TokenType::Eof),
{
    let mut out: Vec<Token> = Vec::new();
    let mut i: usize = 0;
    while i < reads.len()
        invariant
            i <= reads.len(),
            out.len() == i,
            tokens_of_reads(reads@, out@),
        decreases reads.len() - i,
    {
        let (raw, begin, end) = reads[i];
        assert(reads@[i as int] == (raw, begin, end));
        match Token::from_raw(raw, begin, end) {
            Some(t) => {
                let ghost before = out@;
                out.push(t);
                assert forall|k: int| 0 <= k < out@.len() implies #[trigger] token_read(
                    reads@[k],
                    out@[k],
                ) by {
                    if k < i {
                        assert(out@[k] == before[k]);
                    }
                }
            },
            None => {
                return out;
            },
        }
        i += 1;
    }
    out
}

} // verus!
