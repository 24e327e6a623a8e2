//! The SQL keywords the parser knows.

use vstd::prelude::*;

verus! {

/// An SQL keyword.
#[derive(Clone, Copy, Debug, PartialEq, Eq, Structural)]
pub enum Keyword {
    All,
    And,
    Any,
    As,
    Between,
    By,
    Case,
    Cast,
    Char,
    Check,
    Column,
    Constraint,
    Create,
    Cross,
    Current,
    Declare,
    Default,
    Delete,
    Distinct,
    Drop,
    Else,
    Except,
    Exists,
    Escape,
    Fetch,
    For,
    Foreign,
    From,
    Full,
    First,
    False,
    Grant,
    Group,
    Having,
    In,
    Insert,
    Into,
    Is,
    Join,
    Left,
    Like,
    Not,
    Null,
    Of,
    On,
    Or,
    Order,
    Offset,
    Primary,
    References,
    Revoke,
    Right,
    Row,
    Select,
    SetKw,
    Symmetric,
    Table,
    Then,
    To,
    Trigger,
    True,
    Union,
    Unique,
    Update,
    Using,
    Values,
    When,
    Where,
    With,
}

/// A keyword as it stands in a statement read in lower case.
pub open spec fn keyword_word(k: Keyword) -> Seq<char> {
    match k {
        Keyword::All => "all"@,
        Keyword::And => "and"@,
        Keyword::Any => "any"@,
        Keyword::As => "as"@,
        Keyword::Between => "between"@,
        Keyword::By => "by"@,
        Keyword::Case => "case"@,
        Keyword::Cast => "cast"@,
        Keyword::Char => "char"@,
        Keyword::Check => "check"@,
        Keyword::Column => "column"@,
        Keyword::Constraint => "constraint"@,
        Keyword::Create => "create"@,
        Keyword::Cross => "cross"@,
        Keyword::Current => "current"@,
        Keyword::Declare => "declare"@,
        Keyword::Default => "default"@,
        Keyword::Delete => "delete"@,
        Keyword::Distinct => "distinct"@,
        Keyword::Drop => "drop"@,
        Keyword::Else => "else"@,
        Keyword::Except => "except"@,
        Keyword::Exists => "exists"@,
        Keyword::Escape => "escape"@,
        Keyword::Fetch => "fetch"@,
        Keyword::For => "for"@,
        Keyword::Foreign => "foreign"@,
        Keyword::From => "from"@,
        Keyword::Full => "full"@,
        Keyword::First => "first"@,
        Keyword::False => "false"@,
        Keyword::Grant => "grant"@,
        Keyword::Group => "group"@,
        Keyword::Having => "having"@,
        Keyword::In => "in"@,
        Keyword::Insert => "insert"@,
        Keyword::Into => "into"@,
        Keyword::Is => "is"@,
        Keyword::Join => "join"@,
        Keyword::Left => "left"@,
        Keyword::Like => "like"@,
        Keyword::Not => "not"@,
        Keyword::Null => "null"@,
        Keyword::Of => "of"@,
        Keyword::On => "on"@,
        Keyword::Or => "or"@,
        Keyword::Order => "order"@,
        Keyword::Offset => "offset"@,
        Keyword::Primary => "primary"@,
        Keyword::References => "references"@,
        Keyword::Revoke => "revoke"@,
        Keyword::Right => "right"@,
        Keyword::Row => "row"@,
        Keyword::Select => "select"@,
        Keyword::SetKw => "set"@,
        Keyword::Symmetric => "symmetric"@,
        Keyword::Table => "table"@,
        Keyword::Then => "then"@,
        Keyword::To => "to"@,
        Keyword::Trigger => "trigger"@,
        Keyword::True => "true"@,
        Keyword::Union => "union"@,
        Keyword::Unique => "unique"@,
        Keyword::Update => "update"@,
        Keyword::Using => "using"@,
        Keyword::Values => "values"@,
        Keyword::When => "when"@,
        Keyword::Where => "where"@,
        Keyword::With => "with"@,
    }
}

/// All keywords, in declaration order.
pub open spec fn keyword_list() -> Seq<Keyword> {
    seq![
        Keyword::All,
        Keyword::And,
        Keyword::Any,
        Keyword::As,
        Keyword::Between,
        Keyword::By,
        Keyword::Case,
        Keyword::Cast,
        Keyword::Char,
        Keyword::Check,
        Keyword::Column,
        Keyword::Constraint,
        Keyword::Create,
        Keyword::Cross,
        Keyword::Current,
        Keyword::Declare,
        Keyword::Default,
        Keyword::Delete,
        Keyword::Distinct,
        Keyword::Drop,
        Keyword::Else,
        Keyword::Except,
        Keyword::Exists,
        Keyword::Escape,
        Keyword::Fetch,
        Keyword::For,
        Keyword::Foreign,
        Keyword::From,
        Keyword::Full,
        Keyword::First,
        Keyword::False,
        Keyword::Grant,
        Keyword::Group,
        Keyword::Having,
        Keyword::In,
        Keyword::Insert,
        Keyword::Into,
        Keyword::Is,
        Keyword::Join,
        Keyword::Left,
        Keyword::Like,
        Keyword::Not,
        Keyword::Null,
        Keyword::Of,
        Keyword::On,
        Keyword::Or,
        Keyword::Order,
        Keyword::Offset,
        Keyword::Primary,
        Keyword::References,
        Keyword::Revoke,
        Keyword::Right,
        Keyword::Row,
        Keyword::Select,
        Keyword::SetKw,
        Keyword::Symmetric,
        Keyword::Table,
        Keyword::Then,
        Keyword::To,
        Keyword::Trigger,
        Keyword::True,
        Keyword::Union,
        Keyword::Unique,
        Keyword::Update,
        Keyword::Using,
        Keyword::Values,
        Keyword::When,
        Keyword::Where,
        Keyword::With,
    ]
}

/// The words of all keywords, in declaration order.
pub open spec fn keyword_strings() -> Seq<Seq<char>> {
    keyword_list().map_values(|k: Keyword| keyword_word(k))
}

impl Keyword {
    /// The keyword as it stands in a statement read in lower case.
    pub fn word(&self) -> (r: &'static str)
        ensures
            r@ == keyword_word(*self),
    {
        match self {
            Keyword::All => "all",
            Keyword::And => "and",
            Keyword::Any => "any",
            Keyword::As => "as",
            Keyword::Between => "between",
            Keyword::By => "by",
            Keyword::Case => "case",
            Keyword::Cast => "cast",
            Keyword::Char => "char",
            Keyword::Check => "check",
            Keyword::Column => "column",
            Keyword::Constraint => "constraint",
            Keyword::Create => "create",
            Keyword::Cross => "cross",
            Keyword::Current => "current",
            Keyword::Declare => "declare",
            Keyword::Default => "default",
            Keyword::Delete => "delete",
            Keyword::Distinct => "distinct",
            Keyword::Drop => "drop",
            Keyword::Else => "else",
            Keyword::Except => "except",
            Keyword::Exists => "exists",
            Keyword::Escape => "escape",
            Keyword::Fetch => "fetch",
            Keyword::For => "for",
            Keyword::Foreign => "foreign",
            Keyword::From => "from",
            Keyword::Full => "full",
            Keyword::First => "first",
            Keyword::False => "false",
            Keyword::Grant => "grant",
            Keyword::Group => "group",
            Keyword::Having => "having",
            Keyword::In => "in",
            Keyword::Insert => "insert",
            Keyword::Into => "into",
            Keyword::Is => "is",
            Keyword::Join => "join",
            Keyword::Left => "left",
            Keyword::Like => "like",
            Keyword::Not => "not",
            Keyword::Null => "null",
            Keyword::Of => "of",
            Keyword::On => "on",
            Keyword::Or => "or",
            Keyword::Order => "order",
            Keyword::Offset => "offset",
            Keyword::Primary => "primary",
            Keyword::References => "references",
            Keyword::Revoke => "revoke",
            Keyword::Right => "right",
            Keyword::Row => "row",
            Keyword::Select => "select",
            Keyword::SetKw => "set",
            Keyword::Symmetric => "symmetric",
            Keyword::Table => "table",
            Keyword::Then => "then",
            Keyword::To => "to",
            Keyword::Trigger => "trigger",
            Keyword::True => "true",
            Keyword::Union => "union",
            Keyword::Unique => "unique",
            Keyword::Update => "update",
            Keyword::Using => "using",
            Keyword::Values => "values",
            Keyword::When => "when",
            Keyword::Where => "where",
            Keyword::With => "with",
        }
    }

    /// All keywords, in declaration order.
    pub fn iter() -> (r: [Keyword; 69])
        ensures
            r@ == keyword_list(),
    {
        let r = [
            Keyword::All,
            Keyword::And,
            Keyword::Any,
            Keyword::As,
            Keyword::Between,
            Keyword::By,
            Keyword::Case,
            Keyword::Cast,
            Keyword::Char,
            Keyword::Check,
            Keyword::Column,
            Keyword::Constraint,
            Keyword::Create,
            Keyword::Cross,
            Keyword::Current,
            Keyword::Declare,
            Keyword::Default,
            Keyword::Delete,
            Keyword::Distinct,
            Keyword::Drop,
            Keyword::Else,
            Keyword::Except,
            Keyword::Exists,
            Keyword::Escape,
            Keyword::Fetch,
            Keyword::For,
            Keyword::Foreign,
            Keyword::From,
            Keyword::Full,
            Keyword::First,
            Keyword::False,
            Keyword::Grant,
            Keyword::Group,
            Keyword::Having,
            Keyword::In,
            Keyword::Insert,
            Keyword::Into,
            Keyword::Is,
            Keyword::Join,
            Keyword::Left,
            Keyword::Like,
            Keyword::Not,
            Keyword::Null,
            Keyword::Of,
            Keyword::On,
            Keyword::Or,
            Keyword::Order,
            Keyword::Offset,
            Keyword::Primary,
            Keyword::References,
            Keyword::Revoke,
            Keyword::Right,
            Keyword::Row,
            Keyword::Select,
            Keyword::SetKw,
            Keyword::Symmetric,
            Keyword::Table,
            Keyword::Then,
            Keyword::To,
            Keyword::Trigger,
            Keyword::True,
            Keyword::Union,
            Keyword::Unique,
            Keyword::Update,
            Keyword::Using,
            Keyword::Values,
            Keyword::When,
            Keyword::Where,
            Keyword::With,
        ];
        assert(r@ =~= keyword_list());
        r
    }
}

} // verus!
