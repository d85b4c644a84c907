//! What the keys of a calculator mean, and the cursor in the line that they
//! edit. The line holds the expression and one `|` that marks the cursor.

use vstd::prelude::*;
use vstd::string::StringExecFns;
use vstd::utf8::is_ascii_chars;
use crate::strings::{contains, is_substring};

verus! {

/// The meaning of a key.
#[derive(Debug, Clone, Copy, PartialEq, Eq)]
pub enum SymbolMeans {
    SymbolInPexress,
    Delete,
    Clear,
    Left,
    Right,
    ShowResult,
    Unknow,
}

/// The characters that expressions are written with.
pub const EXPRESS_SYMBOLS: &'static str = "1234567890.()+-*/%^";

/// The meaning of the key with the label `ch`: a piece of an expression when
/// the label stands in [`EXPRESS_SYMBOLS`], else what its letter says.
pub open spec fn symbol_means(ch: Seq<char>) -> SymbolMeans {
    if is_substring(ch, EXPRESS_SYMBOLS@) {
        SymbolMeans::SymbolInPexress
    } else if ch == seq!['C'] {
        SymbolMeans::Clear
    } else if ch == seq!['D'] {
        SymbolMeans::Delete
    } else if ch == seq!['\u{2190}'] {
        SymbolMeans::Left
    } else if ch == seq!['\u{2192}'] {
        SymbolMeans::Right
    } else if ch == seq!['='] {
        SymbolMeans::ShowResult
    } else {
        SymbolMeans::Unknow
    }
}

impl SymbolMeans {
    /// The meaning of the key with the label `ch`.
    pub fn new(ch: &str) -> (r: Self)
        ensures
            r == symbol_means(ch@),
    {
        if contains(EXPRESS_SYMBOLS, ch) {
            return SymbolMeans::SymbolInPexress;
        }
        if ch.unicode_len() != 1 {
            return SymbolMeans::Unknow;
        }
        let c = ch.get_char(0);
        assert(ch@ =~= seq![c]);
        match c {
            'C' => SymbolMeans::Clear,
            'D' => SymbolMeans::Delete,
            '\u{2190}' => SymbolMeans::Left,
            '\u{2192}' => SymbolMeans::Right,
            '=' => SymbolMeans::ShowResult,
            _ => SymbolMeans::Unknow,
        }
    }
}

/// The line `line` with its cursor, which stands at `pos`, moved by `offset`
/// places; the line as it is when that would take the cursor out of it.
pub open spec fn moved_cursor(line: Seq<char>, pos: int, offset: int) -> Seq<char> {
    if pos + offset < 0 || pos + offset >= line.len() {
        line
    } else {
        line.remove(pos).insert(pos + offset, '|')
    }
}

/// Moves the cursor of the line `str`, which stands at `pos`, by `offset`
/// places. The line is written in ASCII.
pub fn move_cursor_pos(str: &String, pos: i32, offset: i32) -> (r: String)
    requires
        str.is_ascii(),
        i32::MIN <= pos + offset <= i32::MAX,
        0 <= pos + offset < str@.len() ==> 0 <= pos < str@.len(),
    ensures
        r@ == moved_cursor(str@, pos as int, offset as int),
{
    let len = str.as_str().unicode_len();
    if pos + offset < 0 || (pos + offset) as usize >= len {
        return str.clone();
    }
    let mut str_clone = str.clone();
    str_clone.remove(pos as usize);
    str_clone.insert((pos + offset) as usize, '|');
    str_clone
}

/// `y` when `cond` holds, else `n`.
pub fn ternary_operations<T: Sized>(cond: bool, y: T, n: T) -> (r: T)
    ensures
        r == if cond { y } else { n },
{
    if cond {
        y
    } else {
        n
    }
}

/// Mathematical model of an [`Editor`]: the line and the place of the cursor.
pub struct EditorView {
    pub line: Seq<char>,
    pub cursor: int,
}

/// What the window is to do after a key.
#[derive(Debug, Clone, PartialEq)]
pub enum Reaction {
    /// Show the line.
    Express,
    /// Show the value of this text, or why it has none.
    ShowResult(String),
    /// Tell that the key means nothing.
    Unknow,
}

/// Mathematical model of a [`Reaction`].
pub enum ReactionView {
    Express,
    ShowResult(Seq<char>),
    Unknow,
}

impl View for Reaction {
    type V = ReactionView;

    open spec fn view(&self) -> ReactionView {
        match self {
            Reaction::Express => ReactionView::Express,
            Reaction::ShowResult(text) => ReactionView::ShowResult(text@),
            Reaction::Unknow => ReactionView::Unknow,
        }
    }
}

/// The place one to the right of `cursor`, or `cursor` where the line of
/// length `len` ends there.
pub open spec fn step_right(len: int, cursor: int) -> int {
    if cursor + 1 >= len {
        cursor
    } else {
        cursor + 1
    }
}

/// The place one to the left of `cursor`, or the start of the line.
pub open spec fn step_left(cursor: int) -> int {
    if cursor - 1 >= 0 {
        cursor - 1
    } else {
        0
    }
}

/// The editor after the key with the label `key`. A piece of an expression
/// goes in at the cursor, and the cursor steps to the right; `D` takes out the
/// character to the left of the cursor, or the first one; `C` leaves the
/// cursor alone in the line; the arrows move the cursor.
pub open spec fn pressed(e: EditorView, key: Seq<char>) -> EditorView {
    match symbol_means(key) {
        SymbolMeans::SymbolInPexress => {
            let line = e.line.subrange(0, e.cursor) + key + e.line.subrange(
                e.cursor,
                e.line.len() as int,
            );
            EditorView { line, cursor: step_right(line.len() as int, e.cursor) }
        },
        SymbolMeans::Delete => if e.line.len() > 0 {
            EditorView { line: e.line.remove(step_left(e.cursor)), cursor: step_left(e.cursor) }
        } else {
            e
        },
        SymbolMeans::Clear => EditorView { line: seq!['|'], cursor: 0 },
        SymbolMeans::Left => EditorView {
            line: moved_cursor(e.line, e.cursor, -1),
            cursor: step_left(e.cursor),
        },
        SymbolMeans::Right => EditorView {
            line: moved_cursor(e.line, e.cursor, 1),
            cursor: step_right(e.line.len() as int, e.cursor),
        },
        SymbolMeans::ShowResult => e,
        SymbolMeans::Unknow => e,
    }
}

/// What the window is to do after the key with the label `key`. The text to
/// show the value of is the line without the character at the cursor.
pub open spec fn reaction(e: EditorView, key: Seq<char>) -> ReactionView {
    match symbol_means(key) {
        SymbolMeans::ShowResult => ReactionView::ShowResult(
            if 0 <= e.cursor < e.line.len() {
                e.line.remove(e.cursor)
            } else {
                e.line
            },
        ),
        SymbolMeans::Unknow => ReactionView::Unknow,
        _ => ReactionView::Express,
    }
}

/// A piece of the symbols of expressions is written in ASCII.
proof fn lemma_symbols_ascii(key: Seq<char>)
    requires
        is_substring(key, EXPRESS_SYMBOLS@),
    ensures
        is_ascii_chars(key),
        key.len() <= 19,
{
    reveal_strlit("1234567890.()+-*/%^");
    let hay = EXPRESS_SYMBOLS@;
    let i = choose|i: int|
        0 <= i <= hay.len() - key.len() && #[trigger] hay.subrange(i, i + key.len()) == key;
    assert forall|k: int| 0 <= k < key.len() implies '\0' <= #[trigger] key[k] <= '\u{7f}' by {
        assert(key[k] == hay.subrange(i, i + key.len())[k]);
        assert(key[k] == hay[i + k]);
    }
}

/// The line that the keys edit, and the place of the cursor in it.
pub struct Editor {
    express_str: String,
    cursor_pos: i32,
}

impl View for Editor {
    type V = EditorView;

    closed spec fn view(&self) -> EditorView {
        EditorView { line: self.express_str@, cursor: self.cursor_pos as int }
    }
}

impl Editor {
    #[verifier::type_invariant]
    spec fn well_formed(self) -> bool {
        &&& self.express_str.is_ascii()
        &&& 0 <= self.cursor_pos
        &&& self.cursor_pos < self.express_str@.len() || (self.express_str@.len() == 0
            && self.cursor_pos == 0)
        &&& self.express_str@.len() < i32::MAX
    }

    /// An editor whose line holds the cursor and nothing else.
    pub fn new() -> (r: Self)
        ensures
            r@ == (EditorView { line: seq!['|'], cursor: 0 }),
    {
        proof {
            reveal_strlit("|");
        }
        let express_str = String::from_str("|");
        assert(express_str@ =~= seq!['|']);
        Editor { express_str, cursor_pos: 0 }
    }

    /// The line.
    pub fn express(&self) -> (r: &str)
        ensures
            r@ == self@.line,
    {
        self.express_str.as_str()
    }

    /// The place of the cursor.
    pub fn cursor_pos(&self) -> (r: i32)
        ensures
            r == self@.cursor,
    {
        self.cursor_pos
    }

    /// Whether the line has room for the label `ch`.
    pub fn has_room(&self, ch: &str) -> (r: bool)
        ensures
            r == (self@.line.len() + ch@.len() < i32::MAX),
    {
        proof {
            use_type_invariant(self);
        }
        let len = self.express_str.as_str().unicode_len();
        let more = ch.unicode_len();
        more < 0x7fff_ffff && len < 0x7fff_ffff - more
    }

    /// Takes the key with the label `ch`.
    pub fn press(&mut self, ch: &str) -> (r: Reaction)
        requires
            old(self)@.line.len() + ch@.len() < i32::MAX,
        ensures
            final(self)@ == pressed(old(self)@, ch@),
            r@ == reaction(old(self)@, ch@),
    {
        proof {
            use_type_invariant(&*self);
        }
        let cursor_pos = self.cursor_pos;
        let len = self.express_str.as_str().unicode_len();
        match SymbolMeans::new(ch) {
            SymbolMeans::SymbolInPexress => {
                proof {
                    lemma_symbols_ascii(ch@);
                }
                let mut express_str = self.express_str.clone();
                express_str.insert_str(cursor_pos as usize, ch);
                let new_len = express_str.as_str().unicode_len();
                let mut cursor = cursor_pos + 1;
                if cursor as usize >= new_len {
                    cursor = cursor - 1;
                }
                *self = Editor { express_str, cursor_pos: cursor };
                Reaction::Express
            },
            SymbolMeans::Delete => {
                if len > 0 {
                    let mut express_str = self.express_str.clone();
                    express_str.remove(ternary_operations(cursor_pos - 1 >= 0, cursor_pos - 1, 0) as usize);
                    let mut cursor = cursor_pos - 1;
                    if cursor < 0 {
                        cursor = 0;
                    }
                    *self = Editor { express_str, cursor_pos: cursor };
                }
                Reaction::Express
            },
            SymbolMeans::Clear => {
                *self = Editor::new();
                Reaction::Express
            },
            SymbolMeans::Left => {
                let express_str = move_cursor_pos(&self.express_str, cursor_pos, -1);
                let mut cursor = cursor_pos - 1;
                if cursor < 0 {
                    cursor = 0;
                }
                *self = Editor { express_str, cursor_pos: cursor };
                Reaction::Express
            },
            SymbolMeans::Right => {
                let express_str = move_cursor_pos(&self.express_str, cursor_pos, 1);
                let mut cursor = cursor_pos + 1;
                if cursor as usize >= len {
                    cursor = cursor - 1;
                }
                *self = Editor { express_str, cursor_pos: cursor };
                Reaction::Express
            },
            SymbolMeans::ShowResult => {
                let mut exp_str = self.express_str.clone();
                if (cursor_pos as usize) < len {
                    exp_str.remove(cursor_pos as usize);
                }
                Reaction::ShowResult(exp_str)
            },
            SymbolMeans::Unknow => Reaction::Unknow,
        }
    }
}

} // verus!
