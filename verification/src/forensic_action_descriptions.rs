//! Descriptions of what actions do, for the player to read: runs of text,
//! some of them coloured, and links to the elements of the game they
//! mention.
use vstd::prelude::*;

use crate::cards::CardId;
use crate::markets::MarketId;
use crate::pieces::ArchetypeId;
use crate::players::PlayerId;
use crate::tiles::TileType;

verus! {

/// An element of the game that a description can link to.
#[derive(Debug, Clone, Copy, PartialEq, Eq, Structural)]
pub enum LinkedGamplayElement {
    Card(CardId),
    Piece(ArchetypeId),
    Market(MarketId),
    Tile(TileType),
    Player(PlayerId),
}

/// What a coloured run of text stands for.
#[derive(Debug, Clone, Copy, PartialEq, Eq, Structural)]
pub enum ColorIndicators {
    Money,
    Damage,
    Health,
    GeneralHighlight,
    Unimportant,
}

/// A run of text, or a link.
#[derive(Debug)]
pub enum SnippetContent {
    PlainText(String),
    Link(LinkedGamplayElement),
}

/// One piece of a description.
#[derive(Debug)]
pub struct TextSnippet {
    pub special_color: Option<ColorIndicators>,
    pub content: SnippetContent,
}

/// A run of text, by its characters, or a link.
pub enum SnippetContentView {
    PlainText(Seq<char>),
    Link(LinkedGamplayElement),
}

/// A piece of a description as the reader sees it.
pub struct TextSnippetView {
    pub special_color: Option<ColorIndicators>,
    pub content: SnippetContentView,
}

impl View for TextSnippet {
    type V = TextSnippetView;

    open spec fn view(&self) -> TextSnippetView {
        TextSnippetView {
            special_color: self.special_color,
            content: match self.content {
                SnippetContent::PlainText(text) => SnippetContentView::PlainText(text@),
                SnippetContent::Link(element) => SnippetContentView::Link(element),
            },
        }
    }
}

/// Plain, uncoloured text.
pub open spec fn plain(text: Seq<char>) -> TextSnippetView {
    TextSnippetView { special_color: None, content: SnippetContentView::PlainText(text) }
}

/// Text in the colour of `color`.
pub open spec fn colored(text: Seq<char>, color: ColorIndicators) -> TextSnippetView {
    TextSnippetView { special_color: Some(color), content: SnippetContentView::PlainText(text) }
}

/// A link to `element`.
pub open spec fn link(element: LinkedGamplayElement) -> TextSnippetView {
    TextSnippetView { special_color: None, content: SnippetContentView::Link(element) }
}

/// What the pieces of a description show.
pub open spec fn views_of(snippets: Seq<TextSnippet>) -> Seq<TextSnippetView> {
    snippets.map_values(|s: TextSnippet| s@)
}

/// The decimal digit `d` (below ten).
pub open spec fn digit_char(d: int) -> char {
    if d == 0 {
        '0'
    } else if d == 1 {
        '1'
    } else if d == 2 {
        '2'
    } else if d == 3 {
        '3'
    } else if d == 4 {
        '4'
    } else if d == 5 {
        '5'
    } else if d == 6 {
        '6'
    } else if d == 7 {
        '7'
    } else if d == 8 {
        '8'
    } else {
        '9'
    }
}

/// `n` written in decimal digits, without leading zeros.
pub open spec fn decimal(n: nat) -> Seq<char>
    decreases n,
{
    if n < 10 {
        seq![digit_char(n as int)]
    } else {
        decimal(n / 10).push(digit_char((n % 10) as int))
    }
}

/// The text of the decimal digit `d`.
fn digit_text(d: u64) -> (r: &'static str)
    requires
        d < 10,
    ensures
        r@ == seq![digit_char(d as int)],
{
    if d == 0 {
        proof {
            reveal_strlit("0");
        }
        "0"
    } else if d == 1 {
        proof {
            reveal_strlit("1");
        }
        "1"
    } else if d == 2 {
        proof {
            reveal_strlit("2");
        }
        "2"
    } else if d == 3 {
        proof {
            reveal_strlit("3");
        }
        "3"
    } else if d == 4 {
        proof {
            reveal_strlit("4");
        }
        "4"
    } else if d == 5 {
        proof {
            reveal_strlit("5");
        }
        "5"
    } else if d == 6 {
        proof {
            reveal_strlit("6");
        }
        "6"
    } else if d == 7 {
        proof {
            reveal_strlit("7");
        }
        "7"
    } else if d == 8 {
        proof {
            reveal_strlit("8");
        }
        "8"
    } else {
        proof {
            reveal_strlit("9");
        }
        "9"
    }
}

/// `n` written in decimal digits.
pub fn decimal_text(n: u64) -> (r: String)
    ensures
        r@ == decimal(n as nat),
    decreases n,
{
    if n < 10 {
        String::from_str(digit_text(n))
    } else {
        let mut text = decimal_text(n / 10);
        text.append(digit_text(n % 10));
        text
    }
}

impl TextSnippet {
    /// Plain, uncoloured text.
    pub fn new(text: &str) -> (r: Self)
        ensures
            r@ == plain(text@),
    {
        TextSnippet { special_color: None, content: SnippetContent::PlainText(String::from_str(text)) }
    }

    /// Text in the colour of `color`.
    pub fn colored(text: String, color: ColorIndicators) -> (r: Self)
        ensures
            r@ == colored(text@, color),
    {
        TextSnippet { special_color: Some(color), content: SnippetContent::PlainText(text) }
    }

    /// A link to `element`.
    pub fn link(element: LinkedGamplayElement) -> (r: Self)
        ensures
            r@ == link(element),
    {
        TextSnippet { special_color: None, content: SnippetContent::Link(element) }
    }
}

/// What a description says when nothing more has been written.
pub open spec fn undescribed() -> Seq<TextSnippetView> {
    seq![plain("No description implemented yet."@)]
}

/// The description used where nothing more has been written.
pub fn no_description() -> (r: Vec<TextSnippet>)
    ensures
        views_of(r@) == undescribed(),
{
    let r = vec![TextSnippet::new("No description implemented yet.")];
    proof {
        assert(views_of(r@) =~= undescribed());
    }
    r
}

/// Something whose effect can be described to the player. Each
/// description names what it shows in `description`; where nothing more
/// has been written, it is the single plain snippet "No description
/// implemented yet.".
pub trait ForensicDescribe {
    /// The description, as the reader sees it: by default, the single plain
    /// snippet "No description implemented yet.".
    open spec fn description(&self) -> Seq<TextSnippetView> {
        undescribed()
    }

    fn forensic_description(&self) -> (r: Vec<TextSnippet>)
        default_ensures
            views_of(r@) == undescribed(),
    {
        no_description()
    }
}

} // verus!
