//! The emote filter: cuts a chat text into plain text and names of emotes,
//! and puts it together again with the pictures in place of the names.

use vstd::prelude::*;
use vstd::string::*;
use crate::pattern::{is_match, match_of};
use crate::text::{chars_of, decimal, push_decimal};

verus! {

/// A message with more emotes than this is left as it is.
pub const MAX_EMOTES_PER_MESSAGE: usize = 5;

/// Height of an emote, in pixels.
pub const EMOTE_HEIGHT: u8 = 25;

/// The character that stands before and behind the name of an emote.
pub const EMOTE_DELIMITER: char = ':';

/// What the name of an emote must look like.
pub const EMOTE_REGEX: &'static str = r"^[a-z0-9]+$";

/// The markup that shows a picture given in base 64.
pub open spec fn image_html_text(base64: Seq<char>) -> Seq<char> {
    "<img height=\""@ + decimal(EMOTE_HEIGHT as nat) + "\" src=\"data:image/png;base64,"@ + base64
        + "\"/>"@
}

/// The markup that shows a picture given in base 64.
pub fn image_html(base64: String) -> (html: String)
    ensures
        html@ == image_html_text(base64@),
{
    let mut html = String::from_str("<img height=\"");
    push_decimal(&mut html, EMOTE_HEIGHT as u64);
    html.append("\" src=\"data:image/png;base64,");
    html.append(base64.as_str());
    html.append("\"/>");
    html
}

/// A stretch of a chat text.
#[derive(Debug, PartialEq, Eq)]
pub enum Piece {
    /// Plain text, to be kept as it is.
    Text(String),
    /// The name of an emote, to be replaced by its picture.
    Emote(String),
}

/// A piece with its text as a sequence of characters.
pub enum PieceView {
    Text(Seq<char>),
    Emote(Seq<char>),
}

impl View for Piece {
    type V = PieceView;

    open spec fn view(&self) -> PieceView {
        match self {
            Piece::Text(text) => PieceView::Text(text@),
            Piece::Emote(name) => PieceView::Emote(name@),
        }
    }
}

/// The pieces, each by its view.
pub open spec fn piece_views(pieces: Seq<Piece>) -> Seq<PieceView> {
    Seq::new(pieces.len(), |i: int| pieces[i]@)
}

/// Index of the first delimiter at or after `from`; the length where there
/// is none.
pub open spec fn find_delimiter(text: Seq<char>, from: int) -> int
    decreases text.len() - from,
{
    if 0 <= from < text.len() && text[from] != EMOTE_DELIMITER {
        find_delimiter(text, from + 1)
    } else {
        from
    }
}

/// The search for a delimiter ends between its start and the end of the
/// text.
pub proof fn lemma_find_delimiter_bounds(text: Seq<char>, from: int)
    requires
        0 <= from <= text.len(),
    ensures
        from <= find_delimiter(text, from) <= text.len(),
    decreases text.len() - from,
{
    if from < text.len() && text[from] != EMOTE_DELIMITER {
        lemma_find_delimiter_bounds(text, from + 1);
    }
}

/// The pieces of `text` from `from` on, as the delimiters cut it. A name
/// stands between a delimiter and the next one; the text before such a pair
/// is one piece and the name the next. What follows the last pair is the
/// last piece. Whether a name can be that of an emote is not looked at.
pub open spec fn pieces_from(text: Seq<char>, from: int) -> Seq<PieceView>
    decreases text.len() - from,
{
    if 0 <= from <= text.len() {
        let open = find_delimiter(text, from);
        let close = find_delimiter(text, open + 1);
        if open >= text.len() || close >= text.len() {
            seq![PieceView::Text(text.subrange(from, text.len() as int))]
        } else {
            proof {
                lemma_find_delimiter_bounds(text, from);
                lemma_find_delimiter_bounds(text, open + 1);
            }
            seq![
                PieceView::Text(text.subrange(from, open)),
                PieceView::Emote(text.subrange(open + 1, close)),
            ] + pieces_from(text, close + 1)
        }
    } else {
        Seq::empty()
    }
}

/// The verdict that goes with the piece at `index`; none where the
/// verdicts do not reach that far.
pub open spec fn verdict_at(verdicts: Seq<Option<bool>>, index: int) -> Option<bool> {
    if 0 <= index < verdicts.len() {
        verdicts[index]
    } else {
        None
    }
}

/// A piece after the rule for names was asked: a name stays the name of an
/// emote where the rule matched it, and else goes back to plain text, with
/// its delimiters.
pub open spec fn judged_piece(piece: PieceView, verdict: Option<bool>) -> PieceView {
    match piece {
        PieceView::Text(text) => PieceView::Text(text),
        PieceView::Emote(name) => if verdict == Some(true) {
            PieceView::Emote(name)
        } else {
            PieceView::Text(seq![EMOTE_DELIMITER] + name + seq![EMOTE_DELIMITER])
        },
    }
}

/// The pieces after the rule for names was asked about each.
pub open spec fn judged_pieces(pieces: Seq<PieceView>, verdicts: Seq<Option<bool>>) -> Seq<
    PieceView,
> {
    Seq::new(pieces.len(), |i: int| judged_piece(pieces[i], verdict_at(verdicts, i)))
}

/// How many of the pieces name an emote.
pub open spec fn emote_count(pieces: Seq<PieceView>) -> nat
    decreases pieces.len(),
{
    if pieces.len() == 0 {
        0
    } else if pieces.last() is Emote {
        emote_count(pieces.drop_last()) + 1
    } else {
        emote_count(pieces.drop_last())
    }
}

/// The pieces, where they hold at least one emote and no more than a
/// message may; nothing where the text is to stay as it is.
pub open spec fn within_limit(pieces: Seq<PieceView>) -> Option<Seq<PieceView>> {
    if 0 < emote_count(pieces) <= MAX_EMOTES_PER_MESSAGE {
        Some(pieces)
    } else {
        None
    }
}

/// What matching each name among the pieces against the rule for the names
/// of emotes gives.
pub open spec fn name_verdicts(pieces: Seq<PieceView>) -> Seq<Option<bool>> {
    Seq::new(
        pieces.len(),
        |i: int|
            match pieces[i] {
                PieceView::Emote(name) => match_of(EMOTE_REGEX@, name),
                PieceView::Text(text) => None,
            },
    )
}

/// What the filter makes of a chat text: its pieces, with each name that
/// the rule for names matches as an emote, where there is at least one and
/// no more than a message may hold.
pub open spec fn filtered(text: Seq<char>) -> Option<Seq<PieceView>> {
    let pieces = pieces_from(text, 0);
    within_limit(judged_pieces(pieces, name_verdicts(pieces)))
}

/// Index of the first delimiter at or after `from`, or the length.
fn next_delimiter(chars: &Vec<char>, from: usize) -> (at: usize)
    requires
        from <= chars@.len(),
    ensures
        at == find_delimiter(chars@, from as int),
        from <= at <= chars@.len(),
{
    let mut i: usize = from;
    while i < chars.len() && chars[i] != EMOTE_DELIMITER
        invariant
            from <= i <= chars.len(),
            find_delimiter(chars@, from as int) == find_delimiter(chars@, i as int),
        decreases chars.len() - i,
    {
        i += 1;
    }
    i
}

/// Cuts a chat text at its delimiters into plain text and names.
pub fn delimited(text: &str) -> (pieces: Vec<Piece>)
    ensures
        piece_views(pieces@) == pieces_from(text@, 0),
{
    let chars = chars_of(text);
    let length: usize = chars.len();
    let mut pieces: Vec<Piece> = Vec::new();
    let mut from: usize = 0;
    let mut done = false;
    while !done
        invariant
            chars@ == text@,
            length == chars@.len(),
            from <= length,
            !done ==> pieces_from(text@, 0) == piece_views(pieces@) + pieces_from(
                text@,
                from as int,
            ),
            done ==> pieces_from(text@, 0) == piece_views(pieces@),
        decreases length - from + (if done { 0int } else { 1int }),
    {
        let open = next_delimiter(&chars, from);
        let close = if open < length {
            next_delimiter(&chars, open + 1)
        } else {
            length
        };
        if close >= length {
            let rest = Piece::Text(text.substring_char(from, length).to_owned());
            pieces.push(rest);
            done = true;
        } else {
            let head = Piece::Text(text.substring_char(from, open).to_owned());
            let name = Piece::Emote(text.substring_char(open + 1, close).to_owned());
            pieces.push(head);
            pieces.push(name);
            from = close + 1;
        }
    }
    pieces
}

/// Keeps as emotes the names that the rule for names matched, and turns
/// the others back into plain text. `verdicts` holds, in the place of each
/// name among the pieces, what matching it gave. Nothing is returned where
/// no emote is left, or more than a message may hold.
pub fn keep_named(pieces: &Vec<Piece>, verdicts: &Vec<Option<bool>>) -> (kept: Option<Vec<Piece>>)
    ensures
        match within_limit(judged_pieces(piece_views(pieces@), verdicts@)) {
            Some(judged) => kept matches Some(found) && piece_views(found@) == judged,
            None => kept.is_none(),
        },
{
    let mut kept: Vec<Piece> = Vec::new();
    let mut count: usize = 0;
    let mut i: usize = 0;
    let ghost judged = judged_pieces(piece_views(pieces@), verdicts@);
    while i < pieces.len()
        invariant
            i <= pieces.len(),
            judged == judged_pieces(piece_views(pieces@), verdicts@),
            piece_views(kept@) == judged.take(i as int),
            kept@.len() == i,
            count == emote_count(piece_views(kept@)),
            count <= i,
        decreases pieces.len() - i,
    {
        let matched = i < verdicts.len() && match verdicts[i] {
            Some(true) => true,
            _ => false,
        };
        let piece = match &pieces[i] {
            Piece::Text(text) => Piece::Text(text.clone()),
            Piece::Emote(name) => if matched {
                Piece::Emote(name.clone())
            } else {
                proof {
                    reveal_strlit(":");
                }
                let mut plain = String::from_str(":");
                plain.append(name.as_str());
                plain.append(":");
                assert(plain@ =~= seq![EMOTE_DELIMITER] + name@ + seq![EMOTE_DELIMITER]);
                Piece::Text(plain)
            },
        };
        let ghost before = piece_views(kept@);
        if matched {
            match &piece {
                Piece::Emote(name) => {
                    count += 1;
                },
                Piece::Text(text) => {},
            }
        }
        kept.push(piece);
        assert(piece_views(kept@).drop_last() =~= before);
        i += 1;
    }
    assert(judged.take(pieces@.len() as int) =~= judged);
    if count == 0 || count > MAX_EMOTES_PER_MESSAGE {
        None
    } else {
        Some(kept)
    }
}

/// Cuts a chat text into plain text and names of emotes. Nothing is
/// returned where the text holds no emote, or more than a message may: it
/// is then to stay as it is.
pub fn chat_filter(text: &str) -> (cut: Option<Vec<Piece>>)
    ensures
        match filtered(text@) {
            Some(pieces) => cut matches Some(found) && piece_views(found@) == pieces,
            None => cut.is_none(),
        },
{
    let pieces = delimited(text);
    let mut verdicts: Vec<Option<bool>> = Vec::new();
    let mut i: usize = 0;
    while i < pieces.len()
        invariant
            i <= pieces.len(),
            verdicts@ == name_verdicts(piece_views(pieces@)).take(i as int),
        decreases pieces.len() - i,
    {
        let verdict = match &pieces[i] {
            Piece::Emote(name) => is_match(EMOTE_REGEX, name.as_str()),
            Piece::Text(text) => None,
        };
        verdicts.push(verdict);
        i += 1;
    }
    assert(verdicts@ =~= name_verdicts(piece_views(pieces@)));
    keep_named(&pieces, &verdicts)
}

/// What stands for the piece at `index`: its text for plain text, the
/// picture found for an emote, and nothing for an emote without one.
pub open spec fn piece_text(pieces: Seq<Piece>, images: Seq<Option<String>>, index: int) -> Seq<
    char,
> {
    match pieces[index] {
        Piece::Text(text) => text@,
        Piece::Emote(name) => if index < images.len() {
            match images[index] {
                Some(image) => image@,
                None => Seq::empty(),
            }
        } else {
            Seq::empty()
        },
    }
}

/// The first `count` pieces put together.
pub open spec fn rendered(pieces: Seq<Piece>, images: Seq<Option<String>>, count: nat) -> Seq<char>
    decreases count,
{
    if count == 0 {
        Seq::empty()
    } else {
        rendered(pieces, images, (count - 1) as nat) + piece_text(pieces, images, count - 1)
    }
}

/// Puts a message together from its pieces. `images` holds, in the place
/// of each emote among the pieces, the picture that was found for it, if
/// one was.
pub fn render(pieces: &Vec<Piece>, images: &Vec<Option<String>>) -> (message: String)
    ensures
        message@ == rendered(pieces@, images@, pieces@.len()),
{
    let mut message = String::new();
    let mut i: usize = 0;
    while i < pieces.len()
        invariant
            i <= pieces.len(),
            message@ == rendered(pieces@, images@, i as nat),
        decreases pieces.len() - i,
    {
        match &pieces[i] {
            Piece::Text(text) => {
                message.append(text.as_str());
            },
            Piece::Emote(name) => {
                if i < images.len() {
                    match &images[i] {
                        Some(image) => {
                            message.append(image.as_str());
                        },
                        None => {},
                    }
                }
            },
        }
        i += 1;
    }
    message
}

} // verus!
