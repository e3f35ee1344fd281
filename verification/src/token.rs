//! The tokens of a protocol definition: one per XML element.
use vstd::prelude::*;

verus! {

#[derive(Debug)]
pub enum Token {
    Protocol { name: String, version: String, access: String },
    Group { name: String },
    Message { name: String },
    Struct { name: String },
    Enum { name: String },
    Variant { name: String },
    Field { name: String, kind: String },
    Remainder { name: String },
}

/// The model of a [`Token`]: its text attributes as character sequences.
pub enum TokenView {
    Protocol { name: Seq<char>, version: Seq<char>, access: Seq<char> },
    Group { name: Seq<char> },
    Message { name: Seq<char> },
    Struct { name: Seq<char> },
    Enum { name: Seq<char> },
    Variant { name: Seq<char> },
    Field { name: Seq<char>, kind: Seq<char> },
    Remainder { name: Seq<char> },
}

impl View for Token {
    type V = TokenView;

    open spec fn view(&self) -> TokenView {
        match self {
            Token::Protocol { name, version, access } => TokenView::Protocol {
                name: name@,
                version: version@,
                access: access@,
            },
            Token::Group { name } => TokenView::Group { name: name@ },
            Token::Message { name } => TokenView::Message { name: name@ },
            Token::Struct { name } => TokenView::Struct { name: name@ },
            Token::Enum { name } => TokenView::Enum { name: name@ },
            Token::Variant { name } => TokenView::Variant { name: name@ },
            Token::Field { name, kind } => TokenView::Field { name: name@, kind: kind@ },
            Token::Remainder { name } => TokenView::Remainder { name: name@ },
        }
    }
}

/// The tokens of a list, each seen through its view.
pub open spec fn tokens_view(tokens: Seq<Token>) -> Seq<TokenView> {
    tokens.map_values(|t: Token| t@)
}

/// The tag of a token, as it is written in error messages.
pub open spec fn token_text(t: TokenView) -> Seq<char> {
    match t {
        TokenView::Protocol { .. } => "<protocol>"@,
        TokenView::Group { .. } => "<group>"@,
        TokenView::Message { .. } => "<message>"@,
        TokenView::Struct { .. } => "<struct>"@,
        TokenView::Enum { .. } => "<enum>"@,
        TokenView::Variant { .. } => "<variant>"@,
        TokenView::Field { .. } => "<field>"@,
        TokenView::Remainder { .. } => "<remainder>"@,
    }
}

impl Token {
    /// The tag of the token, such as `<field>`.
    pub fn to_text(&self) -> (r: String)
        ensures
            r@ == token_text(self@),
    {
        let token = match self {
            Token::Protocol { .. } => "<protocol>",
            Token::Group { .. } => "<group>",
            Token::Message { .. } => "<message>",
            Token::Struct { .. } => "<struct>",
            Token::Enum { .. } => "<enum>",
            Token::Variant { .. } => "<variant>",
            Token::Field { .. } => "<field>",
            Token::Remainder { .. } => "<remainder>",
        };
        token.to_owned()
    }
}

} // verus!
