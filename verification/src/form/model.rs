//! A modal form: a list of fields, one focused, optionally with an open
//! choice popup.
//!
//! Generic over the caller's action type `A`. The model stores and returns
//! `A` values but never inspects them, so it carries no knowledge of the
//! application it drives. It also never mutates anything outside itself —
//! [`FormState::handle`] returns the actions it wants applied and the caller
//! applies them, which keeps a single mutation path in the host.
use vstd::prelude::*;
use vstd::string::*;
use std::rc::Rc;

use crate::text::{
    ascii_lower, chars_of, decimal, decimal_string, lower_ascii, parse_u32, parse_u32_of, push_char,
    string_of,
};
use vstd::arithmetic::div_mod::{
    lemma_add_mod_noop, lemma_add_mod_noop_right, lemma_mod_add_multiples_vanish, lemma_mod_bound,
    lemma_mod_self_0, lemma_small_mod,
};

verus! {

/// Which button a [`FieldKind::Button`] is.
#[derive(Debug, Clone, Copy, PartialEq, Eq, Structural)]
pub enum ButtonKind {
    Okay,
    Cancel,
}

impl ButtonKind {
    /// The text drawn inside the button's brackets.
    pub open spec fn spec_label(self) -> Seq<char> {
        match self {
            ButtonKind::Okay => seq!['O', 'K'],
            ButtonKind::Cancel => seq!['C', 'a', 'n', 'c', 'e', 'l'],
        }
    }

    /// The accelerator a built-in button answers to.
    pub open spec fn spec_mnemonic(self) -> char {
        match self {
            ButtonKind::Okay => 'O',
            ButtonKind::Cancel => 'C',
        }
    }

    /// The text drawn inside the button's brackets.
    pub fn label(self) -> (s: &'static str)
        ensures
            s@ == self.spec_label(),
    {
        match self {
            ButtonKind::Okay => {
                let s = "OK";
                proof {
                    reveal_strlit("OK");
                }
                assert(s@ =~= self.spec_label());
                s
            },
            ButtonKind::Cancel => {
                let s = "Cancel";
                proof {
                    reveal_strlit("Cancel");
                }
                assert(s@ =~= self.spec_label());
                s
            },
        }
    }

    /// The accelerator a built-in button answers to.
    ///
    /// Implicit rather than marked, because these two labels are fixed. Field
    /// kinds whose text the caller chooses declare theirs with `~X~` instead.
    #[verifier::when_used_as_spec(spec_mnemonic)]
    pub fn mnemonic(self) -> (c: char)
        ensures
            c == self.spec_mnemonic(),
    {
        match self {
            ButtonKind::Okay => 'O',
            ButtonKind::Cancel => 'C',
        }
    }
}

/// One selectable value of a [`FieldKind::Choice`].
#[derive(Debug, Clone)]
pub struct ChoiceOption<A> {
    pub label: String,
    pub action: A,
}

/// How a cluster marks its items: radio buttons choose exactly one, check
/// boxes turn each on or off on its own.
#[derive(Debug, Clone, Copy, PartialEq, Eq, Structural)]
pub enum ClusterStyle {
    /// `( )` items, exactly one of which is chosen.
    Radio,
    /// `[ ]` items, each on or off independently.
    Check,
}

/// One item of a [`FieldKind::Cluster`].
#[derive(Debug, Clone)]
pub struct ClusterItem<A> {
    pub label: String,
    /// Whether the item is chosen (radio) or checked (check box).
    pub on: bool,
    /// Emitted when the item is chosen or checked.
    pub on_action: A,
    /// Emitted when a check box is cleared, if anything should be.
    pub off_action: Option<A>,
}

/// Reading a label left to right: the drawn text so far, the first marked
/// character with its position in that text, and whether a `~` is open.
pub open spec fn mnemonic_scan(s: Seq<char>) -> (Seq<char>, Option<(char, nat)>, bool)
    decreases s.len(),
{
    if s.len() == 0 {
        (Seq::empty(), None, false)
    } else {
        let (text, found, marked) = mnemonic_scan(s.drop_last());
        let ch = s.last();
        if ch == '~' {
            (text, found, !marked)
        } else {
            (
                text.push(ch),
                if marked && found is None {
                    Some((ch, text.len()))
                } else {
                    found
                },
                marked,
            )
        }
    }
}

/// The drawn text of a label: every `~` removed.
pub open spec fn mnemonic_text(s: Seq<char>) -> Seq<char> {
    mnemonic_scan(s).0
}

/// The label's accelerator and its position in the drawn text, if it marks one.
pub open spec fn mnemonic_mark(s: Seq<char>) -> Option<(char, nat)> {
    mnemonic_scan(s).1
}

/// The drawn text never holds a marker, and a mark names the character at
/// its position in that text.
pub proof fn lemma_mnemonic_scan(s: Seq<char>)
    ensures
        !mnemonic_text(s).contains('~'),
        mnemonic_text(s).len() <= s.len(),
        mnemonic_mark(s) matches Some((c, i)) ==> i < mnemonic_text(s).len()
            && mnemonic_text(s)[i as int] == c,
    decreases s.len(),
{
    if s.len() > 0 {
        lemma_mnemonic_scan(s.drop_last());
        let t = mnemonic_text(s.drop_last());
        if s.last() != '~' {
            assert forall|k: int| 0 <= k < t.push(s.last()).len() implies t.push(s.last())[k]
                != '~' by {
                if k < t.len() {
                    assert(t[k] != '~') by {
                        if t[k] == '~' {
                            assert(t.contains('~'));
                        }
                    }
                }
            }
        }
    }
}

/// Split a label on Turbo Vision's `~X~` mnemonic markers.
///
/// Returns the text as it should be drawn (tildes removed) together with the
/// mnemonic character and its position in that text. `~O~pen` yields
/// `("Open", Some(('O', 0)))`; a label with no markers yields no mnemonic.
///
/// Only the first marked character counts — a label claiming two accelerators
/// is a mistake, and taking the first is more predictable than taking the last.
pub fn parse_mnemonic(label: &str) -> (r: (String, Option<(char, usize)>))
    ensures
        r.0@ == mnemonic_text(label@),
        match r.1 {
            Some((c, i)) => mnemonic_mark(label@) == Some((c, i as nat)),
            None => mnemonic_mark(label@) is None,
        },
        !r.0@.contains('~'),
        r.1 matches Some((c, i)) ==> i < r.0@.len() && r.0@[i as int] == c,
{
    let n = label.unicode_len();
    let mut text = String::new();
    let mut found: Option<(char, usize)> = None;
    let mut marked = false;
    let mut tlen: usize = 0;
    let mut i: usize = 0;
    while i < n
        invariant
            i <= n,
            n == label@.len(),
            text@ == mnemonic_scan(label@.subrange(0, i as int)).0,
            marked == mnemonic_scan(label@.subrange(0, i as int)).2,
            match found {
                Some((c, k)) => mnemonic_scan(label@.subrange(0, i as int)).1 == Some((c, k as nat)),
                None => mnemonic_scan(label@.subrange(0, i as int)).1 is None,
            },
            tlen == text@.len(),
            text@.len() <= i,
        decreases n - i,
    {
        let ch = label.get_char(i);
        let ghost pre = label@.subrange(0, i as int);
        assert(label@.subrange(0, i as int + 1).drop_last() =~= pre);
        if ch == '~' {
            marked = !marked;
        } else {
            if marked && found.is_none() {
                found = Some((ch, tlen));
            }
            push_char(&mut text, ch);
            tlen = tlen + 1;
        }
        i = i + 1;
    }
    assert(label@.subrange(0, n as int) =~= label@);
    proof {
        lemma_mnemonic_scan(label@);
    }
    (text, found)
}

/// Builds the caller's action for a number the user committed.
///
/// The form calls this with the clamped value when a [`FieldKind::Number`]
/// commits; the caller decides what that value means to its application.
pub trait NumberCommit<A> {
    /// The action built for `value`.
    spec fn action_for(&self, value: u32) -> A;

    /// Build the action for `value`.
    fn commit(&self, value: u32) -> (a: A)
        ensures
            a == self.action_for(value),
    ;
}

/// Builds the caller's action for text the user committed.
pub trait TextCommit<A> {
    /// The action built for `text`.
    spec fn action_for(&self, text: Seq<char>) -> A;

    /// Build the action for `text`.
    fn commit(&self, text: &str) -> (a: A)
        ensures
            a == self.action_for(text@),
    ;
}

/// A shared handle to a [`NumberCommit`], so a field holding one stays `Clone`.
#[verifier::reject_recursive_types(A)]
pub struct NumberCommitter<A> {
    pub f: Rc<dyn NumberCommit<A>>,
}

impl<A> NumberCommitter<A> {
    /// The action the handle builds for `value`.
    pub open spec fn action_for(&self, value: u32) -> A {
        self.f.action_for(value)
    }

    /// Build the action for `value`.
    pub fn commit(&self, value: u32) -> (a: A)
        ensures
            a == self.action_for(value),
    {
        self.f.commit(value)
    }
}

/// `Rc::clone` on the handle: a second handle to the same callback.
#[verifier::external_body]
fn share_number<A>(c: &NumberCommitter<A>) -> (r: NumberCommitter<A>)
    ensures
        r == *c,
{
    NumberCommitter { f: Rc::clone(&c.f) }
}

impl<A> Clone for NumberCommitter<A> {
    fn clone(&self) -> (c: Self)
        ensures
            c == *self,
    {
        share_number(self)
    }
}

/// A shared handle to a [`TextCommit`], so a field holding one stays `Clone`.
#[verifier::reject_recursive_types(A)]
pub struct TextCommitter<A> {
    pub f: Rc<dyn TextCommit<A>>,
}

impl<A> TextCommitter<A> {
    /// The action the handle builds for `text`.
    pub open spec fn action_for(&self, text: Seq<char>) -> A {
        self.f.action_for(text)
    }

    /// Build the action for `text`.
    pub fn commit(&self, text: &str) -> (a: A)
        ensures
            a == self.action_for(text@),
    {
        self.f.commit(text)
    }
}

/// `Rc::clone` on the handle: a second handle to the same callback.
#[verifier::external_body]
fn share_text<A>(c: &TextCommitter<A>) -> (r: TextCommitter<A>)
    ensures
        r == *c,
{
    TextCommitter { f: Rc::clone(&c.f) }
}

impl<A> Clone for TextCommitter<A> {
    fn clone(&self) -> (c: Self)
        ensures
            c == *self,
    {
        share_text(self)
    }
}

/// What a field is and how it behaves.
///
/// Marked non-exhaustive: new field kinds are expected, and a consumer's
/// `match` should not break every time one arrives.
#[derive(Clone)]
#[non_exhaustive]
#[verifier::reject_recursive_types(A)]
pub enum FieldKind<A> {
    /// One-of-N. Enter opens a popup listing every option.
    Choice {
        options: Vec<ChoiceOption<A>>,
        /// `None` means nothing is selected — the value this field reflects is
        /// genuinely unset, not merely absent from `options`.
        selected: Option<usize>,
    },
    /// Bounded integer entry. Digits buffer; Enter parses, clamps and commits.
    Number {
        value: u32,
        /// The live digit string: seeded from `value` and edited in place.
        buffer: String,
        /// Insertion point within `buffer`, in `0..=buffer.len()`.
        cursor: usize,
        /// Whole-value selection (Turbo Vision "selected on entry"). While set,
        /// the first digit replaces the buffer; any navigation/edit key clears
        /// it and drops into in-place editing.
        selected: bool,
        /// `false` = insert (default), `true` = overtype.
        overtype: bool,
        min: u32,
        max: u32,
        unit: &'static str,
        /// Builds the action for the committed value, which is unknown until
        /// the user types it.
        commit: NumberCommitter<A>,
    },
    /// Free text entry — the analogue of Turbo Vision's `TInputLine`.
    ///
    /// Typing buffers; Enter commits the buffer through `commit`. Editing
    /// behaves exactly as [`FieldKind::Number`] does: whole-value selection on
    /// entry, insert/overtype toggled by Insert, Home/End/Delete/Backspace as
    /// CUA specifies.
    Text {
        /// The live text, edited in place.
        buffer: String,
        /// Caret position in **characters**, in `0..=buffer.chars().count()`.
        /// One char renders as one cell, so this is also its column offset.
        cursor: usize,
        /// Whole-value selection. While set, the first character typed
        /// replaces the whole buffer.
        selected: bool,
        /// `false` = insert (default), `true` = overtype.
        overtype: bool,
        /// Longest the buffer may become, in characters.
        max_len: usize,
        /// Called with the committed text to build the caller's action.
        commit: TextCommitter<A>,
    },
    /// Two-state. Enter flips it and emits the matching action.
    Toggle { on: bool, on_action: A, off_action: A },
    /// A derived value, shown but not editable. Skipped by focus traversal.
    ReadOnly(String),
    Button(ButtonKind),
    /// A group of radio buttons or check boxes, one row per item. Up and Down
    /// move the caret among the items and wrap; Enter or Space chooses the item the
    /// caret is on. Moving the caret chooses nothing.
    Cluster { style: ClusterStyle, items: Vec<ClusterItem<A>>, cursor: usize },
}

/// A labelled field.
#[derive(Clone)]
#[verifier::reject_recursive_types(A)]
pub struct Field<A> {
    pub label: &'static str,
    pub kind: FieldKind<A>,
    /// The actions that restore this field's value as it was when the form
    /// opened, applied in order. An empty vector means the field contributes
    /// nothing to Cancel.
    ///
    /// Deliberately separate from the field's own selection action: restoring
    /// a value is not always the same operation as choosing it.
    pub restore: Vec<A>,
}

/// Focus can land on everything but a read-only row.
pub open spec fn focusable_kind<A>(k: FieldKind<A>) -> bool {
    !(k is ReadOnly)
}

impl<A> Field<A> {
    /// False for [`FieldKind::ReadOnly`], which focus traversal skips.
    pub fn focusable(&self) -> (b: bool)
        ensures
            b == focusable_kind(self.kind),
    {
        match self.kind {
            FieldKind::ReadOnly(_) => false,
            _ => true,
        }
    }
}

/// An open choice list.
#[derive(Debug, Clone, Copy, PartialEq, Eq, Structural)]
pub struct Popup {
    /// Index of the field this popup belongs to.
    pub field: usize,
    /// Index of the highlighted option.
    pub highlight: usize,
}

/// A key event, already translated out of the host's input representation.
#[derive(Debug, Clone, Copy, PartialEq, Eq, Structural)]
pub enum FormEvent {
    /// Move focus up one *row*. Fields are a vertical stack except a trailing
    /// run of buttons (the OK/Cancel bar), which share one row — so Up/Down
    /// step between rows and never between two side-by-side buttons.
    Up,
    /// Move focus down one row. See [`FormEvent::Up`].
    Down,
    /// Move focus left *within the current row* — between the buttons of the
    /// button bar; a no-op on single-field rows. Moves the caret in an entry
    /// field.
    Left,
    /// Move focus right within the current row. See [`FormEvent::Left`].
    Right,
    /// Move focus to the next field in order, across rows (Tab).
    Tab,
    /// Move focus to the previous field in order (Shift+Tab).
    BackTab,
    Enter,
    Escape,
    Char(char),
    Backspace,
    Home,
    End,
    Delete,
    Insert,
    /// The user invoked the accelerator for this character. A hotkey on a
    /// button presses it; one on any other field focuses it.
    Hotkey(char),
}

/// What the host should do after an event.
#[derive(Debug, Clone)]
pub struct FormOutcome<A> {
    /// Actions to apply, in order. Usually empty or one; Cancel emits the
    /// restore actions of every field the user actually changed.
    pub actions: Vec<A>,
    /// Whether the form should close.
    pub close: bool,
}

impl<A> FormOutcome<A> {
    fn nothing() -> (o: Self)
        ensures
            o.actions@.len() == 0,
            !o.close,
    {
        FormOutcome { actions: Vec::new(), close: false }
    }

    fn action(a: A) -> (o: Self)
        ensures
            o.actions@ == seq![a],
            !o.close,
    {
        let mut actions = Vec::new();
        actions.push(a);
        FormOutcome { actions, close: false }
    }

    fn closing(actions: Vec<A>) -> (o: Self)
        ensures
            o.actions == actions,
            o.close,
    {
        FormOutcome { actions, close: true }
    }
}

/// `out` is, element by element, `expected` or a clone of it.
pub open spec fn delivers<A: Clone>(out: Seq<A>, expected: Seq<A>) -> bool {
    out.len() == expected.len() && forall|i: int|
        0 <= i < expected.len() ==> cloned(expected[i], #[trigger] out[i])
}

/// The editing state of an entry field: its text, caret (in characters),
/// whole-value selection and insert/overtype mode.
pub struct EntryView {
    pub text: Seq<char>,
    pub cursor: int,
    pub selected: bool,
    pub overtype: bool,
}

/// The editing state of an entry field ([`FieldKind::Number`] or
/// [`FieldKind::Text`]).
pub open spec fn entry_of<A>(k: FieldKind<A>) -> EntryView {
    match k {
        FieldKind::Number { buffer, cursor, selected, overtype, .. } => EntryView {
            text: buffer@,
            cursor: cursor as int,
            selected,
            overtype,
        },
        FieldKind::Text { buffer, cursor, selected, overtype, .. } => EntryView {
            text: buffer@,
            cursor: cursor as int,
            selected,
            overtype,
        },
        _ => EntryView { text: Seq::empty(), cursor: 0, selected: false, overtype: false },
    }
}

/// Whether a field kind is an entry field, edited by typing.
pub open spec fn is_entry<A>(k: FieldKind<A>) -> bool {
    k is Number || k is Text
}

/// Longest an entry's text may grow by typing: four digits for a number
/// (the slot the renderer reserves), `max_len` for text.
pub open spec fn entry_limit<A>(k: FieldKind<A>) -> int {
    match k {
        FieldKind::Text { max_len, .. } => max_len as int,
        _ => 4,
    }
}

/// The entry's state with its whole value selected and the caret at the end.
pub open spec fn select_all(e: EntryView) -> EntryView {
    EntryView { text: e.text, cursor: e.text.len() as int, selected: true, overtype: e.overtype }
}

/// The entry's state after the key `ev`, for an entry that may grow to
/// `limit` characters and, when `digits_only`, accepts only ASCII digits.
pub open spec fn edit(e: EntryView, limit: int, digits_only: bool, ev: FormEvent) -> EntryView {
    let len = e.text.len() as int;
    let cleared = EntryView { text: Seq::empty(), cursor: 0, selected: false, overtype: e.overtype };
    match ev {
        FormEvent::Char(c) => if digits_only && !crate::text::is_digit(c) {
            e
        } else if e.selected {
            EntryView { text: seq![c], cursor: 1, selected: false, overtype: e.overtype }
        } else if e.overtype && e.cursor < len {
            EntryView {
                text: e.text.update(e.cursor, c),
                cursor: e.cursor + 1,
                selected: e.selected,
                overtype: e.overtype,
            }
        } else if len < limit {
            // A caret past the end of the text appends.
            EntryView {
                text: if e.cursor <= len {
                    e.text.insert(e.cursor, c)
                } else {
                    e.text.push(c)
                },
                cursor: e.cursor + 1,
                selected: e.selected,
                overtype: e.overtype,
            }
        } else {
            e
        },
        FormEvent::Backspace => if e.selected {
            cleared
        } else if e.cursor > 0 {
            EntryView {
                text: e.text.remove(e.cursor - 1),
                cursor: e.cursor - 1,
                selected: e.selected,
                overtype: e.overtype,
            }
        } else {
            e
        },
        FormEvent::Delete => if e.selected {
            cleared
        } else if e.cursor < len {
            EntryView {
                text: e.text.remove(e.cursor),
                cursor: e.cursor,
                selected: e.selected,
                overtype: e.overtype,
            }
        } else {
            e
        },
        FormEvent::Home => EntryView { text: e.text, cursor: 0, selected: false, overtype: e.overtype },
        FormEvent::End => EntryView { text: e.text, cursor: len, selected: false, overtype: e.overtype },
        FormEvent::Left => if e.selected {
            EntryView { text: e.text, cursor: 0, selected: false, overtype: e.overtype }
        } else {
            EntryView {
                text: e.text,
                cursor: if e.cursor > 0 { e.cursor - 1 } else { 0 },
                selected: e.selected,
                overtype: e.overtype,
            }
        },
        FormEvent::Right => if e.selected {
            EntryView { text: e.text, cursor: len, selected: false, overtype: e.overtype }
        } else {
            EntryView {
                text: e.text,
                cursor: if e.cursor + 1 < len { e.cursor + 1 } else { len },
                selected: e.selected,
                overtype: e.overtype,
            }
        },
        FormEvent::Insert => EntryView {
            text: e.text,
            cursor: e.cursor,
            selected: false,
            overtype: !e.overtype,
        },
        _ => e,
    }
}

/// Whether the key `ev` is defined on the entry `e`: everything but
/// Backspace with the caret past the end of the text, and a key that would
/// step the caret beyond `usize::MAX`.
pub open spec fn edit_defined(e: EntryView, limit: int, digits_only: bool, ev: FormEvent) -> bool {
    match ev {
        FormEvent::Backspace => e.selected || e.cursor <= e.text.len(),
        FormEvent::Right => e.selected || e.cursor < usize::MAX,
        FormEvent::Char(c) => (digits_only && !crate::text::is_digit(c)) || e.selected || (e.overtype
            && e.cursor < e.text.len()) || e.text.len() >= limit || e.cursor < usize::MAX,
        _ => true,
    }
}

/// Apply one key to an entry field's editing state.
fn apply_edit(
    buffer: &mut String,
    cursor: &mut usize,
    selected: &mut bool,
    overtype: &mut bool,
    limit: usize,
    digits_only: bool,
    ev: FormEvent,
)
    requires
        edit_defined(
            EntryView {
                text: old(buffer)@,
                cursor: *old(cursor) as int,
                selected: *old(selected),
                overtype: *old(overtype),
            },
            limit as int,
            digits_only,
            ev,
        ),
    ensures
        ({
            let e = edit(
                EntryView {
                    text: old(buffer)@,
                    cursor: *old(cursor) as int,
                    selected: *old(selected),
                    overtype: *old(overtype),
                },
                limit as int,
                digits_only,
                ev,
            );
            &&& final(buffer)@ == e.text
            &&& *final(cursor) == e.cursor
            &&& *final(selected) == e.selected
            &&& *final(overtype) == e.overtype
        }),
        *old(cursor) <= old(buffer)@.len() ==> *final(cursor) <= final(buffer)@.len(),
{
    let chars = chars_of(buffer.as_str());
    let len = chars.len();
    let cur = *cursor;
    match ev {
        FormEvent::Char(c) => {
            if digits_only && !('0' <= c && c <= '9') {
                return;
            }
            if *selected {
                let mut s = String::new();
                push_char(&mut s, c);
                *buffer = s;
                *selected = false;
                *cursor = 1;
                assert(buffer@ =~= seq![c]);
            } else if *overtype && cur < len {
                let mut v = chars;
                v.set(cur, c);
                *buffer = string_of(&v, 0, v.len());
                assert(v@.subrange(0, v@.len() as int) =~= v@);
                *cursor = cur + 1;
            } else if len < limit {
                let mut v = chars;
                if cur <= len {
                    v.insert(cur, c);
                } else {
                    v.push(c);
                }
                *buffer = string_of(&v, 0, v.len());
                assert(v@.subrange(0, v@.len() as int) =~= v@);
                *cursor = cur + 1;
            }
        },
        FormEvent::Backspace => {
            if *selected {
                *buffer = String::new();
                *selected = false;
                *cursor = 0;
            } else if cur > 0 {
                let mut v = chars;
                v.remove(cur - 1);
                *buffer = string_of(&v, 0, v.len());
                assert(v@.subrange(0, v@.len() as int) =~= v@);
                *cursor = cur - 1;
            }
        },
        FormEvent::Delete => {
            if *selected {
                *buffer = String::new();
                *selected = false;
                *cursor = 0;
            } else if cur < len {
                let mut v = chars;
                v.remove(cur);
                *buffer = string_of(&v, 0, v.len());
                assert(v@.subrange(0, v@.len() as int) =~= v@);
            }
        },
        FormEvent::Home => {
            *selected = false;
            *cursor = 0;
        },
        FormEvent::End => {
            *selected = false;
            *cursor = len;
        },
        FormEvent::Left => {
            if *selected {
                *selected = false;
                *cursor = 0;
            } else if cur > 0 {
                *cursor = cur - 1;
            }
        },
        FormEvent::Right => {
            // Right when selected moves the caret to the end (CUA), rather
            // than relying on a selected field's caret already sitting there.
            if *selected {
                *selected = false;
                *cursor = len;
            } else if cur < len && cur + 1 < len {
                *cursor = cur + 1;
            } else {
                *cursor = len;
            }
        },
        FormEvent::Insert => {
            *overtype = !*overtype;
            *selected = false;
        },
        _ => {},
    }
}

/// An entry field's caret lies within its text, and a number's range is
/// not inverted: the states every edit and commit is defined on.
pub open spec fn field_ok<A>(f: Field<A>) -> bool {
    match f.kind {
        FieldKind::Number { buffer, cursor, min, max, .. } => cursor <= buffer@.len() && min <= max,
        FieldKind::Text { buffer, cursor, .. } => cursor <= buffer@.len(),
        _ => true,
    }
}

/// Every field is [`field_ok`].
pub open spec fn fields_ok<A>(fields: Seq<Field<A>>) -> bool {
    forall|i: int| 0 <= i < fields.len() ==> field_ok(#[trigger] fields[i])
}

/// `k2` is `k1` with its entry state set to `e` and, for a number, its
/// committed value set to `value`; everything else about it is unchanged.
pub open spec fn entry_set<A>(k1: FieldKind<A>, k2: FieldKind<A>, value: u32, e: EntryView) -> bool {
    match k1 {
        FieldKind::Number { min, max, unit, commit, .. } => match k2 {
            FieldKind::Number {
                value: v2,
                buffer,
                cursor,
                selected,
                overtype,
                min: min2,
                max: max2,
                unit: unit2,
                commit: commit2,
            } => v2 == value && buffer@ == e.text && cursor == e.cursor && selected == e.selected
                && overtype == e.overtype && min2 == min && max2 == max && unit2 == unit
                && commit2 == commit,
            _ => false,
        },
        FieldKind::Text { max_len, commit, .. } => match k2 {
            FieldKind::Text {
                buffer,
                cursor,
                selected,
                overtype,
                max_len: max_len2,
                commit: commit2,
            } => buffer@ == e.text && cursor == e.cursor && selected == e.selected && overtype
                == e.overtype && max_len2 == max_len && commit2 == commit,
            _ => false,
        },
        _ => k2 == k1,
    }
}

/// A number's committed value; zero for any other kind.
pub open spec fn value_of<A>(k: FieldKind<A>) -> u32 {
    match k {
        FieldKind::Number { value, .. } => value,
        _ => 0,
    }
}

/// `f2` is field `i` of `fs1` with its entry state and value replaced, and
/// `fs2` is `fs1` with `f2` in its place. A non-entry field stays as it was.
pub open spec fn fields_with_entry<A>(
    fs1: Seq<Field<A>>,
    fs2: Seq<Field<A>>,
    i: int,
    value: u32,
    e: EntryView,
) -> bool {
    &&& fs2.len() == fs1.len()
    &&& forall|j: int| 0 <= j < fs1.len() && j != i ==> fs2[j] == fs1[j]
    &&& 0 <= i < fs1.len() ==> {
        &&& fs2[i].label == fs1[i].label
        &&& fs2[i].restore == fs1[i].restore
        &&& entry_set(fs1[i].kind, fs2[i].kind, value, e)
    }
}

/// `fs2` is `fs1` after the key `ev` edits field `i`, if that is an entry
/// field; otherwise the fields are unchanged.
pub open spec fn fields_edited<A>(fs1: Seq<Field<A>>, fs2: Seq<Field<A>>, i: int, ev: FormEvent) -> bool {
    if 0 <= i < fs1.len() && is_entry(fs1[i].kind) {
        fields_with_entry(
            fs1,
            fs2,
            i,
            value_of(fs1[i].kind),
            edit(entry_of(fs1[i].kind), entry_limit(fs1[i].kind), fs1[i].kind is Number, ev),
        )
    } else {
        fs2 == fs1
    }
}

/// `fs2` is `fs1` with field `i`'s whole value selected, if it is an entry
/// field; otherwise the fields are unchanged. This is what focus landing on
/// a field does.
pub open spec fn fields_reselected<A>(fs1: Seq<Field<A>>, fs2: Seq<Field<A>>, i: int) -> bool {
    if 0 <= i < fs1.len() && is_entry(fs1[i].kind) {
        fields_with_entry(fs1, fs2, i, value_of(fs1[i].kind), select_all(entry_of(fs1[i].kind)))
    } else {
        fs2 == fs1
    }
}

/// Focus may land on field `i`.
pub open spec fn focusable_at<A>(fs: Seq<Field<A>>, i: int) -> bool {
    0 <= i < fs.len() && focusable_kind(fs[i].kind)
}

/// Where the run of buttons ending at `k` starts.
pub open spec fn run_start<A>(fs: Seq<Field<A>>, k: int) -> int
    decreases k,
{
    if 0 < k <= fs.len() && fs[k - 1].kind is Button {
        run_start(fs, k - 1)
    } else {
        k
    }
}

/// Index of the first field in the trailing run of buttons — the button
/// bar, which shares one row — or the field count if there is none.
pub open spec fn bar_start<A>(fs: Seq<Field<A>>) -> int {
    run_start(fs, fs.len() as int)
}

/// The focusable fields below `k`, in order. Below the button bar each of
/// them is a row of its own.
pub open spec fn single_rows<A>(fs: Seq<Field<A>>, k: int) -> Seq<int>
    decreases k,
{
    if k <= 0 {
        Seq::empty()
    } else {
        single_rows(fs, k - 1) + if focusable_at(fs, k - 1) {
            seq![k - 1]
        } else {
            Seq::<int>::empty()
        }
    }
}

/// How many rows arrow navigation moves between: one per focusable field
/// above the button bar, plus the bar itself.
pub open spec fn row_count<A>(fs: Seq<Field<A>>) -> int {
    single_rows(fs, bar_start(fs)).len() + if bar_start(fs) < fs.len() {
        1int
    } else {
        0int
    }
}

/// `(row, column)` of field `f` among the navigation rows, if it is on one.
pub open spec fn row_pos<A>(fs: Seq<Field<A>>, f: int) -> Option<(int, int)> {
    let bs = bar_start(fs);
    if 0 <= f < bs && focusable_at(fs, f) {
        Some((single_rows(fs, f).len() as int, 0))
    } else if bs <= f < fs.len() {
        Some((single_rows(fs, bs).len() as int, f - bs))
    } else {
        None
    }
}

/// The field at column `c` of row `r`, the column clamped to the row's last.
pub open spec fn row_cell<A>(fs: Seq<Field<A>>, r: int, c: int) -> int {
    let singles = single_rows(fs, bar_start(fs));
    let bs = bar_start(fs);
    if r < singles.len() {
        singles[r]
    } else if c < fs.len() - bs - 1 {
        bs + c
    } else {
        fs.len() - 1
    }
}

/// Where Up (`delta == -1`) or Down (`delta == 1`) takes focus from `f`:
/// one row over, wrapping, keeping the column where the target row allows.
/// Focus that is on no row goes to the first row.
pub open spec fn row_step<A>(fs: Seq<Field<A>>, f: int, delta: int) -> int {
    let rc = row_count(fs);
    if rc == 0 {
        f
    } else {
        match row_pos(fs, f) {
            None => row_cell(fs, 0, 0),
            Some((r, c)) => row_cell(fs, (r + delta) % rc, c),
        }
    }
}

/// Where Left (`delta == -1`) or Right (`delta == 1`) takes focus from `f`:
/// along the button bar, wrapping; nowhere on a single-field row.
pub open spec fn col_step<A>(fs: Seq<Field<A>>, f: int, delta: int) -> int {
    let bs = bar_start(fs);
    if bs <= f < fs.len() {
        bs + (f - bs + delta) % (fs.len() - bs)
    } else {
        f
    }
}

/// The first focusable field met stepping by `delta` from `i`, wrapping
/// round the form, within `k` steps.
pub open spec fn focus_scan<A>(fs: Seq<Field<A>>, i: int, delta: int, k: nat) -> Option<int>
    decreases k,
{
    if k == 0 || fs.len() == 0 {
        None
    } else {
        let j = (i + delta) % (fs.len() as int);
        if focusable_at(fs, j) {
            Some(j)
        } else {
            focus_scan(fs, j, delta, (k - 1) as nat)
        }
    }
}

/// Where Tab (`delta == 1`) or Shift+Tab (`delta == -1`) takes focus from
/// `f`: the next focusable field in linear order, wrapping. With nothing
/// focusable, focus stays.
pub open spec fn tab_step<A>(fs: Seq<Field<A>>, f: int, delta: int) -> int {
    match focus_scan(fs, f, delta, fs.len()) {
        Some(j) => j,
        None => f,
    }
}

/// The accelerator a field answers to: a button's implicit one, or the
/// character its label marks with `~X~`.
pub open spec fn claimed<A>(f: Field<A>) -> Option<char> {
    match f.kind {
        FieldKind::Button(k) => Some(k.spec_mnemonic()),
        _ => match mnemonic_mark(f.label@) {
            Some((c, _)) => Some(c),
            None => None,
        },
    }
}

/// Field `f` answers to the hotkey `c`, ignoring ASCII case. A read-only
/// field answers to none, since it cannot take focus.
pub open spec fn claims<A>(f: Field<A>, c: char) -> bool {
    &&& focusable_kind(f.kind)
    &&& claimed(f) matches Some(m) && ascii_lower(m) == ascii_lower(c)
}

/// The first field at or after `i` that answers to `c`.
pub open spec fn hotkey_from<A>(fs: Seq<Field<A>>, c: char, i: int) -> Option<int>
    decreases fs.len() - i,
{
    if i < 0 || i >= fs.len() {
        None
    } else if claims(fs[i], c) {
        Some(i)
    } else {
        hotkey_from(fs, c, i + 1)
    }
}

/// The first field at or after `i` that is an OK button.
pub open spec fn ok_from<A>(fs: Seq<Field<A>>, i: int) -> Option<int>
    decreases fs.len() - i,
{
    if i < 0 || i >= fs.len() {
        None
    } else if fs[i].kind matches FieldKind::Button(ButtonKind::Okay) {
        Some(i)
    } else {
        ok_from(fs, i + 1)
    }
}

/// The first focusable field at or after `i`.
pub open spec fn focusable_from<A>(fs: Seq<Field<A>>, i: int) -> Option<int>
    decreases fs.len() - i,
{
    if i < 0 || i >= fs.len() {
        None
    } else if focusable_kind(fs[i].kind) {
        Some(i)
    } else {
        focusable_from(fs, i + 1)
    }
}

/// The restore actions of the dirty fields below `k`, in field order.
pub open spec fn restore_upto<A>(originals: Seq<Seq<A>>, dirty: Seq<bool>, k: int) -> Seq<A>
    decreases k,
{
    if k <= 0 {
        Seq::empty()
    } else {
        restore_upto(originals, dirty, k - 1) + if k - 1 < dirty.len() && dirty[k - 1] && k - 1
            < originals.len() {
            originals[k - 1]
        } else {
            Seq::<A>::empty()
        }
    }
}

/// `dirty` with field `i` marked changed; an index out of range is ignored.
pub open spec fn mark(dirty: Seq<bool>, i: int) -> Seq<bool> {
    if 0 <= i < dirty.len() {
        dirty.update(i, true)
    } else {
        dirty
    }
}

/// A form and its current interaction state.
#[derive(Clone)]
#[verifier::reject_recursive_types(A)]
pub struct FormState<A> {
    pub title: &'static str,
    fields: Vec<Field<A>>,
    focus: usize,
    popup: Option<Popup>,
    /// Each field's `restore` actions as captured when the form opened.
    originals: Vec<Vec<A>>,
    /// Whether the user has changed each field since the form opened.
    ///
    /// Cancel restores only dirty fields: actions the user never asked for
    /// can carry side effects beyond their own field, so an untouched field
    /// must stay untouched.
    dirty: Vec<bool>,
}

impl<A> FormState<A> {
    /// The title drawn in the panel's top edge.
    pub closed spec fn title_of(&self) -> &'static str {
        self.title
    }

    /// The fields, as displayed.
    pub closed spec fn fields_of(&self) -> Seq<Field<A>> {
        self.fields@
    }

    /// The focused field's index.
    pub closed spec fn focus_of(&self) -> usize {
        self.focus
    }

    /// The open choice list, if any.
    pub closed spec fn popup_of(&self) -> Option<Popup> {
        self.popup
    }

    /// Each field's restore actions as captured when the form opened.
    pub closed spec fn originals_of(&self) -> Seq<Seq<A>> {
        self.originals@.map_values(|v: Vec<A>| v@)
    }

    /// Which fields the user has changed since the form opened.
    pub closed spec fn dirty_of(&self) -> Seq<bool> {
        self.dirty@
    }

    /// Every field is in a state the form can edit and commit.
    pub open spec fn wf(&self) -> bool {
        fields_ok(self.fields_of())
    }

    /// What Cancel restores: the opening restore actions of every field the
    /// user changed, in field order.
    pub open spec fn cancel_spec(&self) -> Seq<A> {
        restore_upto(self.originals_of(), self.dirty_of(), self.dirty_of().len() as int)
    }

    pub fn focus(&self) -> (i: usize)
        ensures
            i == self.focus_of(),
    {
        self.focus
    }

    /// The title drawn in the panel's top edge.
    pub fn title(&self) -> (t: &'static str)
        ensures
            t == self.title_of(),
    {
        self.title
    }

    /// Focus field `index`, if it exists and can take focus.
    pub fn set_focus(&mut self, index: usize)
        ensures
            final(self).focus_of() == if focusable_at(old(self).fields_of(), index as int) {
                index
            } else {
                old(self).focus_of()
            },
            final(self).fields_of() == old(self).fields_of(),
            final(self).popup_of() == old(self).popup_of(),
            final(self).originals_of() == old(self).originals_of(),
            final(self).dirty_of() == old(self).dirty_of(),
            final(self).title_of() == old(self).title_of(),
    {
        if index < self.fields.len() && self.is_focusable(index) {
            self.focus = index;
        }
    }

    pub fn fields(&self) -> (fs: &[Field<A>])
        ensures
            fs@ == self.fields_of(),
    {
        self.fields.as_slice()
    }

    pub fn popup(&self) -> (p: Option<&Popup>)
        ensures
            match p {
                Some(q) => self.popup_of() == Some(*q),
                None => self.popup_of() is None,
            },
    {
        match &self.popup {
            Some(q) => Some(q),
            None => None,
        }
    }

    fn is_focusable(&self, index: usize) -> (b: bool)
        ensures
            b == focusable_at(self.fields_of(), index as int),
    {
        if index < self.fields.len() {
            self.fields[index].focusable()
        } else {
            false
        }
    }
}

impl<A: Clone> FormState<A> {
    /// Build a form, capturing each field's `restore` actions as its opening
    /// value. Focus starts on the first focusable field; a form with none is
    /// inert, with focus at 0.
    pub fn new(title: &'static str, fields: Vec<Field<A>>) -> (f: Self)
        ensures
            f.title_of() == title,
            f.fields_of() == fields@,
            f.focus_of() == match focusable_from(fields@, 0) {
                Some(i) => i,
                None => 0,
            },
            f.popup_of() is None,
            f.dirty_of() == Seq::new(fields@.len(), |_i: int| false),
            f.originals_of().len() == fields@.len(),
            forall|i: int|
                0 <= i < fields@.len() ==> delivers(
                    #[trigger] f.originals_of()[i],
                    fields@[i].restore@,
                ),
    {
        let n = fields.len();
        let mut originals: Vec<Vec<A>> = Vec::new();
        let mut dirty: Vec<bool> = Vec::new();
        let mut focus: Option<usize> = None;
        let mut i: usize = 0;
        while i < n
            invariant
                i <= n,
                n == fields@.len(),
                originals@.len() == i,
                dirty@ == Seq::new(i as nat, |_j: int| false),
                forall|j: int|
                    0 <= j < i ==> delivers(#[trigger] originals@[j]@, fields@[j].restore@),
                match focus {
                    Some(k) => focusable_from(fields@, 0) == Some(k as int),
                    None => focusable_from(fields@, 0) == focusable_from(fields@, i as int),
                },
            decreases n - i,
        {
            originals.push(fields[i].restore.clone());
            dirty.push(false);
            assert(dirty@ =~= Seq::new((i + 1) as nat, |_j: int| false));
            if focus.is_none() && fields[i].focusable() {
                focus = Some(i);
            }
            i = i + 1;
        }
        let f = FormState {
            title,
            fields,
            focus: match focus {
                Some(k) => k,
                None => 0,
            },
            popup: None,
            originals,
            dirty,
        };
        assert forall|j: int| 0 <= j < n implies delivers(
            #[trigger] f.originals_of()[j],
            f.fields@[j].restore@,
        ) by {
            assert(f.originals_of()[j] == f.originals@[j]@);
        }
        f
    }

    /// Swap in a freshly built field list without disturbing the interaction.
    ///
    /// The host rebuilds the fields from live state after every applied
    /// action, because one field's action can change another field's value.
    /// Only the displayed values are replaced: `focus`, `popup`, `originals`
    /// and `dirty` all survive. `originals` in particular are not recaptured —
    /// they are the values the form opened with, which is what Cancel restores.
    pub fn refresh_fields(&mut self, fields: Vec<Field<A>>)
        ensures
            final(self).fields_of() == fields@,
            final(self).focus_of() == old(self).focus_of(),
            final(self).popup_of() == old(self).popup_of(),
            final(self).originals_of() == old(self).originals_of(),
            final(self).dirty_of() == old(self).dirty_of(),
            final(self).title_of() == old(self).title_of(),
    {
        self.fields = fields;
    }

    /// The restore actions of every field the user changed, in field order,
    /// preserving each field's own internal restore order.
    fn cancel_actions(&self) -> (out: Vec<A>)
        ensures
            delivers(out@, self.cancel_spec()),
    {
        let mut out: Vec<A> = Vec::new();
        let n = self.dirty.len();
        let ghost originals = self.originals_of();
        let mut i: usize = 0;
        while i < n
            invariant
                i <= n,
                n == self.dirty@.len(),
                originals == self.originals_of(),
                delivers(out@, restore_upto(originals, self.dirty@, i as int)),
            decreases n - i,
        {
            let ghost before = out@;
            if self.dirty[i] && i < self.originals.len() {
                let actions = &self.originals[i];
                assert(originals[i as int] == actions@);
                let ghost done = restore_upto(originals, self.dirty@, i as int);
                let mut k: usize = 0;
                while k < actions.len()
                    invariant
                        k <= actions@.len(),
                        out@.len() == before.len() + k,
                        out@.subrange(0, before.len() as int) == before,
                        delivers(before, done),
                        forall|j: int| 0 <= j < k ==> cloned(actions@[j], #[trigger] out@[before.len() + j]),
                    decreases actions@.len() - k,
                {
                    let a = actions[k].clone();
                    out.push(a);
                    k = k + 1;
                    assert(out@.subrange(0, before.len() as int) =~= before);
                }
                assert forall|j: int| 0 <= j < (done + actions@).len() implies cloned(
                    (done + actions@)[j],
                    #[trigger] out@[j],
                ) by {
                    if j < before.len() {
                        assert(out@[j] == out@.subrange(0, before.len() as int)[j]);
                    } else {
                        assert(out@[j] == out@[before.len() + (j - before.len())]);
                    }
                }
                assert(restore_upto(originals, self.dirty@, i as int + 1) =~= restore_upto(originals, self.dirty@, i as int) + actions@);
            } else {
                assert(restore_upto(originals, self.dirty@, i as int + 1) =~= restore_upto(originals, self.dirty@, i as int));
            }
            i = i + 1;
        }
        out
    }
}

/// `+1` for a forward step, `-1` for a backward one.
pub open spec fn delta(forward: bool) -> int {
    if forward {
        1
    } else {
        -1
    }
}

/// One step round a cycle of `n` places, as `(r + delta) % n` computes it.
proof fn lemma_wrap(r: int, n: int, forward: bool)
    requires
        0 <= r < n,
    ensures
        (r + delta(forward)) % n == if forward {
            if r + 1 == n {
                0
            } else {
                r + 1
            }
        } else {
            if r == 0 {
                n - 1
            } else {
                r - 1
            }
        },
{
    if forward {
        if r + 1 == n {
            lemma_mod_self_0(n);
        } else {
            lemma_small_mod((r + 1) as nat, n as nat);
        }
    } else {
        if r == 0 {
            lemma_mod_add_multiples_vanish(-1, n);
            lemma_small_mod((n - 1) as nat, n as nat);
        } else {
            lemma_small_mod((r - 1) as nat, n as nat);
        }
    }
}

/// `(i + delta) % n`, for any `i`.
fn wrap_step(i: usize, n: usize, forward: bool) -> (j: usize)
    requires
        n > 0,
    ensures
        j == (i + delta(forward)) % (n as int),
        j < n,
{
    let r = i % n;
    proof {
        lemma_wrap(r as int, n as int, forward);
        lemma_add_mod_noop_right(delta(forward), i as int, n as int);
    }
    if forward {
        if r + 1 == n {
            0
        } else {
            r + 1
        }
    } else {
        if r == 0 {
            n - 1
        } else {
            r - 1
        }
    }
}

/// Fewer focusable fields lie below a lower bound.
proof fn lemma_single_rows_len<A>(fs: Seq<Field<A>>, a: int, b: int)
    requires
        0 <= a <= b,
    ensures
        single_rows(fs, a).len() <= single_rows(fs, b).len(),
        a < b && focusable_at(fs, a) ==> single_rows(fs, a).len() < single_rows(fs, b).len(),
    decreases b - a,
{
    if a < b {
        lemma_single_rows_len(fs, a, b - 1);
        if focusable_at(fs, a) && a + 1 <= b - 1 {
            lemma_single_rows_len(fs, a + 1, b - 1);
        }
    }
}

/// The rows below `k` hold only indices of fields below `k`.
proof fn lemma_single_rows_bounded<A>(fs: Seq<Field<A>>, k: int)
    requires
        0 <= k,
    ensures
        forall|j: int|
            0 <= j < single_rows(fs, k).len() ==> 0 <= #[trigger] single_rows(fs, k)[j] < k,
        single_rows(fs, k).len() <= k,
    decreases k,
{
    if k > 0 {
        lemma_single_rows_bounded(fs, k - 1);
        let prev = single_rows(fs, k - 1);
        let tail = if focusable_at(fs, k - 1) {
            seq![k - 1]
        } else {
            Seq::<int>::empty()
        };
        assert(single_rows(fs, k) == prev + tail);
        assert forall|j: int| 0 <= j < single_rows(fs, k).len() implies 0 <= #[trigger] single_rows(
            fs,
            k,
        )[j] < k by {
            if j < prev.len() {
                assert(single_rows(fs, k)[j] == prev[j]);
            } else {
                assert(single_rows(fs, k)[j] == tail[j - prev.len()]);
            }
        }
    }
}

/// The button bar starts at or before the end.
proof fn lemma_run_start<A>(fs: Seq<Field<A>>, k: int)
    requires
        0 <= k <= fs.len(),
    ensures
        0 <= run_start(fs, k) <= k,
    decreases k,
{
    if 0 < k && fs[k - 1].kind is Button {
        lemma_run_start(fs, k - 1);
    }
}

fn is_button<A>(f: &Field<A>) -> (b: bool)
    ensures
        b == f.kind is Button,
{
    match f.kind {
        FieldKind::Button(_) => true,
        _ => false,
    }
}

/// The character a label claims as its accelerator, if any.
fn mnemonic_of(label: &str) -> (c: Option<char>)
    ensures
        c == match mnemonic_mark(label@) {
            Some((m, _)) => Some(m),
            None => None,
        },
{
    match parse_mnemonic(label).1 {
        Some((m, _)) => Some(m),
        None => None,
    }
}

impl<A> FormState<A> {
    /// Index of the first field of the button bar.
    fn bar_start(&self) -> (bs: usize)
        ensures
            bs == bar_start(self.fields_of()),
            bs <= self.fields_of().len(),
    {
        let n = self.fields.len();
        let mut k = n;
        while k > 0 && is_button(&self.fields[k - 1])
            invariant
                k <= n,
                n == self.fields@.len(),
                run_start(self.fields@, n as int) == run_start(self.fields@, k as int),
            decreases k,
        {
            k = k - 1;
        }
        k
    }

    /// The focusable fields below `k`, in order.
    fn single_rows(&self, k: usize) -> (v: Vec<usize>)
        requires
            k <= self.fields_of().len(),
        ensures
            v@.len() == single_rows(self.fields_of(), k as int).len(),
            forall|j: int| 0 <= j < v@.len() ==> v@[j] as int == single_rows(self.fields_of(), k as int)[j],
    {
        let mut v: Vec<usize> = Vec::new();
        let mut i: usize = 0;
        while i < k
            invariant
                i <= k,
                k <= self.fields@.len(),
                v@.len() == single_rows(self.fields@, i as int).len(),
                forall|j: int| 0 <= j < v@.len() ==> v@[j] as int == single_rows(self.fields@, i as int)[j],
            decreases k - i,
        {
            if self.fields[i].focusable() {
                v.push(i);
            }
            i = i + 1;
        }
        v
    }

    /// Move focus one row (Up/Down), preserving the column where the target
    /// row is narrower by clamping to its last field. Wraps top-to-bottom.
    fn step_row(&mut self, forward: bool)
        ensures
            final(self).focus_of() == row_step(old(self).fields_of(), old(self).focus_of() as int, delta(forward)),
            final(self).fields_of() == old(self).fields_of(),
            final(self).popup_of() == old(self).popup_of(),
            final(self).dirty_of() == old(self).dirty_of(),
            final(self).originals_of() == old(self).originals_of(),
            final(self).title_of() == old(self).title_of(),
    {
        let ghost fs = self.fields@;
        let n = self.fields.len();
        let bs = self.bar_start();
        let singles = self.single_rows(bs);
        let sl = singles.len();
        proof {
            lemma_run_start(fs, n as int);
            lemma_single_rows_bounded(fs, bs as int);
            lemma_single_rows_len(fs, 0, bs as int);
        }
        let rc = if bs < n { sl + 1 } else { sl };
        if rc == 0 {
            return;
        }
        let f = self.focus;
        let (r, c) = if f < bs && self.is_focusable(f) {
            let below = self.single_rows(f);
            proof {
                lemma_single_rows_len(fs, f as int, bs as int);
            }
            (below.len(), 0)
        } else if bs <= f && f < n {
            (sl, f - bs)
        } else {
            // Focus is on no row (a read-only field, or past the end):
            // go to the first row.
            let target = if sl > 0 { singles[0] } else { bs };
            self.focus = target;
            return;
        };
        let tr = wrap_step(r, rc, forward);
        proof {
            lemma_small_mod(r as nat, rc as nat);
        }
        let target = if tr < sl {
            singles[tr]
        } else if c < n - bs - 1 {
            bs + c
        } else {
            n - 1
        };
        self.focus = target;
    }

    /// Move focus within the current row (Left/Right), wrapping. A no-op on a
    /// single-field row.
    fn step_col(&mut self, forward: bool)
        ensures
            final(self).focus_of() == col_step(old(self).fields_of(), old(self).focus_of() as int, delta(forward)),
            final(self).fields_of() == old(self).fields_of(),
            final(self).popup_of() == old(self).popup_of(),
            final(self).dirty_of() == old(self).dirty_of(),
            final(self).originals_of() == old(self).originals_of(),
            final(self).title_of() == old(self).title_of(),
    {
        let n = self.fields.len();
        let bs = self.bar_start();
        let f = self.focus;
        if bs <= f && f < n {
            let c = wrap_step(f - bs, n - bs, forward);
            self.focus = bs + c;
        }
    }

    /// Move focus to the next (or previous) focusable field in linear order,
    /// wrapping. This is Tab / Shift+Tab, buttons included. If nothing is
    /// focusable, focus stays where it was.
    fn step_focus(&mut self, forward: bool)
        ensures
            final(self).focus_of() == tab_step(old(self).fields_of(), old(self).focus_of() as int, delta(forward)),
            final(self).fields_of() == old(self).fields_of(),
            final(self).popup_of() == old(self).popup_of(),
            final(self).dirty_of() == old(self).dirty_of(),
            final(self).originals_of() == old(self).originals_of(),
            final(self).title_of() == old(self).title_of(),
    {
        let n = self.fields.len();
        if n == 0 {
            return;
        }
        let ghost f0 = self.focus as int;
        let mut i = self.focus;
        let mut k: usize = 0;
        while k < n
            invariant
                k <= n,
                n == self.fields@.len(),
                self.focus == f0,
                *self == *old(self),
                focus_scan(self.fields@, f0, delta(forward), n as nat) == focus_scan(
                    self.fields@,
                    i as int,
                    delta(forward),
                    (n - k) as nat,
                ),
            decreases n - k,
        {
            i = wrap_step(i, n, forward);
            if self.is_focusable(i) {
                self.focus = i;
                return;
            }
            k = k + 1;
        }
    }

    /// The field claiming `c` as its accelerator, if any.
    ///
    /// Case-insensitive, because a host reporting Alt+O has no idea whether
    /// the label spelled it `O` or `o`. Non-focusable fields are skipped.
    fn hotkey_target(&self, c: char) -> (t: Option<usize>)
        ensures
            match t {
                Some(i) => hotkey_from(self.fields_of(), c, 0) == Some(i as int),
                None => hotkey_from(self.fields_of(), c, 0) is None,
            },
    {
        let wanted = lower_ascii(c);
        let n = self.fields.len();
        let mut i: usize = 0;
        while i < n
            invariant
                i <= n,
                n == self.fields@.len(),
                wanted == ascii_lower(c),
                hotkey_from(self.fields@, c, 0) == hotkey_from(self.fields@, c, i as int),
            decreases n - i,
        {
            let f = &self.fields[i];
            if f.focusable() {
                let claimed = match &f.kind {
                    FieldKind::Button(k) => Some(k.mnemonic()),
                    _ => mnemonic_of(f.label),
                };
                if let Some(m) = claimed {
                    if lower_ascii(m) == wanted {
                        return Some(i);
                    }
                }
            }
            i = i + 1;
        }
        None
    }

    /// Index of the first OK button, if the form has one.
    fn ok_button(&self) -> (b: Option<usize>)
        ensures
            match b {
                Some(i) => ok_from(self.fields_of(), 0) == Some(i as int),
                None => ok_from(self.fields_of(), 0) is None,
            },
    {
        let n = self.fields.len();
        let mut i: usize = 0;
        while i < n
            invariant
                i <= n,
                n == self.fields@.len(),
                ok_from(self.fields@, 0) == ok_from(self.fields@, i as int),
            decreases n - i,
        {
            if let FieldKind::Button(ButtonKind::Okay) = self.fields[i].kind {
                return Some(i);
            }
            i = i + 1;
        }
        None
    }
}

/// No actions, and the form stays open.
pub open spec fn quiet<A>(out: FormOutcome<A>) -> bool {
    out.actions@.len() == 0 && !out.close
}

/// Whether item `j` of a cluster is on once the item at `c` is chosen: a
/// radio cluster turns on the chosen item alone, a check box flips it.
pub open spec fn chosen_on<A>(style: ClusterStyle, items: Seq<ClusterItem<A>>, c: int, j: int) -> bool {
    match style {
        ClusterStyle::Radio => j == c,
        ClusterStyle::Check => if j == c {
            !items[j].on
        } else {
            items[j].on
        },
    }
}

/// `after` is `before` with the item at `c` chosen: every item keeps its
/// label and actions, and is on as [`chosen_on`] says.
pub open spec fn items_chosen<A>(
    style: ClusterStyle,
    before: Seq<ClusterItem<A>>,
    after: Seq<ClusterItem<A>>,
    c: int,
) -> bool {
    &&& after.len() == before.len()
    &&& forall|j: int|
        #![trigger after[j]]
        0 <= j < before.len() ==> {
            &&& after[j].label == before[j].label
            &&& after[j].on_action == before[j].on_action
            &&& after[j].off_action == before[j].off_action
            &&& after[j].on == chosen_on(style, before, c, j)
        }
}

/// What choosing the item at `c` emits: a radio item's `on_action`; a check
/// box's `on_action` when it turns on, and its `off_action`, if it has one,
/// when it turns off.
pub open spec fn choice_actions<A>(style: ClusterStyle, items: Seq<ClusterItem<A>>, c: int) -> Seq<A> {
    match style {
        ClusterStyle::Radio => seq![items[c].on_action],
        ClusterStyle::Check => if !items[c].on {
            seq![items[c].on_action]
        } else {
            match items[c].off_action {
                Some(a) => seq![a],
                None => Seq::empty(),
            }
        },
    }
}

/// Space operates the focused field as Enter does — presses a button,
/// flips a toggle, opens a list, chooses a cluster item, commits a number —
/// everywhere but in a text field, where it is a space.
pub open spec fn space_operates<A>(fs: Seq<Field<A>>, f: int, ev: FormEvent) -> bool {
    match ev {
        FormEvent::Char(c) => c == ' ' && !(0 <= f < fs.len() && fs[f].kind is Text),
        _ => false,
    }
}

/// Focus is on a cluster with at least one item, whose caret Up and Down
/// move.
pub open spec fn on_cluster<A>(fs: Seq<Field<A>>, f: int) -> bool {
    0 <= f < fs.len() && match fs[f].kind {
        FieldKind::Cluster { items, .. } => items@.len() > 0,
        _ => false,
    }
}

/// Choose the item at `c`, and return what choosing it emits.
fn choose_item<A: Clone>(items: &mut Vec<ClusterItem<A>>, style: ClusterStyle, c: usize) -> (r: Option<A>)
    requires
        c < old(items)@.len(),
    ensures
        items_chosen(style, old(items)@, final(items)@, c as int),
        match r {
            Some(a) => choice_actions(style, old(items)@, c as int).len() == 1 && cloned(
                choice_actions(style, old(items)@, c as int)[0],
                a,
            ),
            None => choice_actions(style, old(items)@, c as int).len() == 0,
        },
{
    let ghost before = items@;
    match style {
        ClusterStyle::Radio => {
            let n = items.len();
            let mut j: usize = 0;
            while j < n
                invariant
                    j <= n,
                    n == before.len(),
                    items@.len() == n,
                    c < n,
                    forall|k: int|
                        #![trigger items@[k]]
                        0 <= k < n ==> {
                            &&& items@[k].label == before[k].label
                            &&& items@[k].on_action == before[k].on_action
                            &&& items@[k].off_action == before[k].off_action
                            &&& items@[k].on == if k < j {
                                k == c
                            } else {
                                before[k].on
                            }
                        },
                decreases n - j,
            {
                items[j].on = j == c;
                j = j + 1;
            }
            Some(items[c].on_action.clone())
        },
        ClusterStyle::Check => {
            let now = !items[c].on;
            items[c].on = now;
            if now {
                Some(items[c].on_action.clone())
            } else {
                match &items[c].off_action {
                    Some(a) => Some(a.clone()),
                    None => None,
                }
            }
        },
    }
}

/// `v` held within `lo..=hi`, as `Ord::clamp` does it.
pub open spec fn clamp(v: u32, lo: u32, hi: u32) -> u32 {
    if v < lo {
        lo
    } else if v > hi {
        hi
    } else {
        v
    }
}

impl<A: Clone> FormState<A> {
    /// `post` is `self` with focus at `focus` and nothing else changed.
    pub open spec fn only_focus(self, post: Self, focus: int) -> bool {
        &&& post.fields_of() == self.fields_of()
        &&& post.focus_of() == focus
        &&& post.popup_of() == self.popup_of()
        &&& post.dirty_of() == self.dirty_of()
    }

    /// Focus moved to `target`, which selects its whole value if it is an
    /// entry field, and nothing else changed.
    pub open spec fn moved_to(self, post: Self, target: int) -> bool {
        &&& post.focus_of() == target
        &&& fields_reselected(self.fields_of(), post.fields_of(), target)
        &&& post.popup_of() == self.popup_of()
        &&& post.dirty_of() == self.dirty_of()
    }

    /// The caret of the cluster at `f` stepped one item (forward for Down,
    /// back for Up), wrapping, and nothing else changed.
    pub open spec fn caret_moved(self, post: Self, f: int, forward: bool) -> bool {
        let fs = self.fields_of();
        match fs[f].kind {
            FieldKind::Cluster { style, items, cursor } => {
                &&& post.fields_of() == fs.update(
                    f,
                    Field {
                        label: fs[f].label,
                        kind: FieldKind::Cluster {
                            style,
                            items,
                            cursor: ((cursor + delta(forward)) % (items@.len() as int)) as usize,
                        },
                        restore: fs[f].restore,
                    },
                )
                &&& post.focus_of() == f
                &&& post.popup_of() == self.popup_of()
                &&& post.dirty_of() == self.dirty_of()
            },
            _ => false,
        }
    }

    /// The key `ev` edited the focused entry field, if focus is on one, and
    /// nothing else changed.
    pub open spec fn edited_by(self, post: Self, ev: FormEvent) -> bool {
        &&& fields_edited(self.fields_of(), post.fields_of(), self.focus_of() as int, ev)
        &&& post.focus_of() == self.focus_of()
        &&& post.popup_of() == self.popup_of()
        &&& post.dirty_of() == self.dirty_of()
    }

    /// What activating field `i` (Enter on it, or its hotkey if it is a
    /// button) does, to the form and in its outcome.
    pub open spec fn activated(self, post: Self, i: int, out: FormOutcome<A>) -> bool {
        let fs = self.fields_of();
        if !(0 <= i < fs.len()) {
            self.only_focus(post, i) && quiet(out)
        } else {
            match fs[i].kind {
                // Opening the popup changes nothing yet; the Enter that picks
                // an option is what marks the field dirty.
                FieldKind::Choice { selected, .. } => {
                    &&& post.fields_of() == fs
                    &&& post.focus_of() == i
                    &&& post.popup_of() == Some(
                        Popup {
                            field: i as usize,
                            highlight: match selected {
                                Some(h) => h,
                                None => 0,
                            },
                        },
                    )
                    &&& post.dirty_of() == self.dirty_of()
                    &&& quiet(out)
                },
                FieldKind::Toggle { on, on_action, off_action } => {
                    &&& post.fields_of() == fs.update(
                        i,
                        Field {
                            label: fs[i].label,
                            kind: FieldKind::Toggle { on: !on, on_action, off_action },
                            restore: fs[i].restore,
                        },
                    )
                    &&& post.focus_of() == i
                    &&& post.popup_of() == self.popup_of()
                    &&& post.dirty_of() == mark(self.dirty_of(), i)
                    &&& !out.close
                    &&& delivers(
                        out.actions@,
                        seq![
                            if on {
                                off_action
                            } else {
                                on_action
                            },
                        ],
                    )
                },
                // Committing text has nothing to parse and nothing to clamp,
                // so an empty buffer is a legitimate value.
                FieldKind::Text { buffer, commit, .. } => {
                    let e = entry_of(fs[i].kind);
                    &&& fields_with_entry(
                        fs,
                        post.fields_of(),
                        i,
                        0,
                        EntryView {
                            text: e.text,
                            cursor: e.cursor,
                            selected: false,
                            overtype: e.overtype,
                        },
                    )
                    // Like a number, committed text advances to OK.
                    &&& post.focus_of() == match ok_from(post.fields_of(), 0) {
                        Some(k) => k,
                        None => i,
                    }
                    &&& post.popup_of() == self.popup_of()
                    &&& post.dirty_of() == mark(self.dirty_of(), i)
                    &&& !out.close
                    &&& out.actions@ == seq![commit.action_for(buffer@)]
                },
                FieldKind::Number { value, buffer, min, max, commit, overtype, .. } => match parse_u32(
                    buffer@,
                ) {
                    // Empty or invalid buffer: nothing was typed, so nothing
                    // commits and the field is not dirtied.
                    None => self.only_focus(post, i) && quiet(out),
                    Some(parsed) => {
                        let c = clamp(parsed, min, max);
                        &&& fields_with_entry(
                            fs,
                            post.fields_of(),
                            i,
                            c,
                            EntryView {
                                text: decimal(c as nat),
                                cursor: decimal(c as nat).len() as int,
                                selected: false,
                                overtype,
                            },
                        )
                        // Enter always advances to OK so that a second Enter
                        // dismisses the dialog, even when nothing changed.
                        &&& post.focus_of() == match ok_from(post.fields_of(), 0) {
                            Some(k) => k,
                            None => i,
                        }
                        &&& post.popup_of() == self.popup_of()
                        &&& if c == value {
                            post.dirty_of() == self.dirty_of() && quiet(out)
                        } else {
                            &&& post.dirty_of() == mark(self.dirty_of(), i)
                            &&& !out.close
                            &&& out.actions@ == seq![commit.action_for(c)]
                        }
                    },
                },
                FieldKind::Button(ButtonKind::Okay) => {
                    self.only_focus(post, i) && out.close && out.actions@.len() == 0
                },
                FieldKind::Button(ButtonKind::Cancel) => {
                    self.only_focus(post, i) && out.close && delivers(
                        out.actions@,
                        self.cancel_spec(),
                    )
                },
                FieldKind::ReadOnly(_) => self.only_focus(post, i) && quiet(out),
                // Enter chooses the item under the caret.
                FieldKind::Cluster { style, items, cursor } => if cursor < items@.len() {
                    &&& post.fields_of().len() == fs.len()
                    &&& forall|j: int| 0 <= j < fs.len() && j != i ==> post.fields_of()[j] == fs[j]
                    &&& post.fields_of()[i].label == fs[i].label
                    &&& post.fields_of()[i].restore == fs[i].restore
                    &&& match post.fields_of()[i].kind {
                        FieldKind::Cluster { style: s2, items: it2, cursor: c2 } => s2 == style && c2
                            == cursor && items_chosen(style, items@, it2@, cursor as int),
                        _ => false,
                    }
                    &&& post.focus_of() == i
                    &&& post.popup_of() == self.popup_of()
                    &&& post.dirty_of() == mark(self.dirty_of(), i)
                    &&& !out.close
                    &&& delivers(out.actions@, choice_actions(style, items@, cursor as int))
                } else {
                    self.only_focus(post, i) && quiet(out)
                },
            }
        }
    }

    /// How many options the open popup lists; zero if it no longer sits on a
    /// choice field.
    pub open spec fn popup_count(self) -> int {
        let fs = self.fields_of();
        let p = self.popup_of()->0;
        if p.field < fs.len() {
            match fs[p.field as int].kind {
                FieldKind::Choice { options, .. } => options@.len() as int,
                _ => 0,
            }
        } else {
            0
        }
    }

    /// What `ev` does while the popup is open. The popup is modal: it takes
    /// only Up, Down, Enter and Escape, and every other event is ignored.
    pub open spec fn popup_handled(self, post: Self, ev: FormEvent, out: FormOutcome<A>) -> bool {
        let fs = self.fields_of();
        let p = self.popup_of()->0;
        let count = self.popup_count();
        let closed = {
            &&& post.fields_of() == fs
            &&& post.focus_of() == self.focus_of()
            &&& post.popup_of() is None
            &&& post.dirty_of() == self.dirty_of()
        };
        let highlighted = |h: int|
            {
                &&& post.fields_of() == fs
                &&& post.focus_of() == self.focus_of()
                &&& post.popup_of() == Some(Popup { field: p.field, highlight: h as usize })
                &&& post.dirty_of() == self.dirty_of()
            };
        if count == 0 {
            closed && quiet(out)
        } else {
            match ev {
                FormEvent::Up => highlighted((p.highlight + count - 1) % count) && quiet(out),
                FormEvent::Down => highlighted((p.highlight + 1) % count) && quiet(out),
                FormEvent::Escape => closed && quiet(out),
                FormEvent::Enter => match fs[p.field as int].kind {
                    FieldKind::Choice { options, .. } => {
                        &&& post.fields_of() == fs.update(
                            p.field as int,
                            Field {
                                label: fs[p.field as int].label,
                                kind: FieldKind::Choice { options, selected: Some(p.highlight) },
                                restore: fs[p.field as int].restore,
                            },
                        )
                        &&& post.focus_of() == self.focus_of()
                        &&& post.popup_of() is None
                        // Re-picking the already-selected option counts as a
                        // change: restoring a field to the value it already
                        // holds is harmless.
                        &&& if p.highlight < count {
                            &&& post.dirty_of() == mark(self.dirty_of(), p.field as int)
                            &&& !out.close
                            &&& delivers(out.actions@, seq![options@[p.highlight as int].action])
                        } else {
                            post.dirty_of() == self.dirty_of() && quiet(out)
                        }
                    },
                    _ => false,
                },
                _ => self.only_focus(post, self.focus_of() as int) && quiet(out),
            }
        }
    }

    /// Whether `ev` is defined on the focused field's entry state, when focus
    /// is on an entry field (see [`edit_defined`]).
    pub open spec fn focused_edit_defined(self, ev: FormEvent) -> bool {
        let fs = self.fields_of();
        let f = self.focus_of() as int;
        0 <= f < fs.len() && is_entry(fs[f].kind) ==> edit_defined(
            entry_of(fs[f].kind),
            entry_limit(fs[f].kind),
            fs[f].kind is Number,
            ev,
        )
    }

    /// Whether committing the focused field is defined: everything but a
    /// number whose typed value parses while its `min` exceeds its `max`,
    /// which has no range to clamp into.
    pub open spec fn commit_defined(self) -> bool {
        let fs = self.fields_of();
        let f = self.focus_of() as int;
        0 <= f < fs.len() ==> match fs[f].kind {
            FieldKind::Number { buffer, min, max, .. } => parse_u32(buffer@) is Some ==> min <= max,
            _ => true,
        }
    }

    /// The events `handle` takes in this state: with a popup open, all of
    /// them; otherwise all but an edit that is not defined on the focused
    /// entry (see [`edit_defined`]) and an Enter whose commit is not defined
    /// (see [`FormState::commit_defined`]). A form whose fields are all
    /// [`field_ok`] meets every one of these but a Right with the caret at
    /// `usize::MAX`.
    pub open spec fn accepts(self, ev: FormEvent) -> bool {
        self.popup_of() is Some || match ev {
            FormEvent::Up | FormEvent::Down | FormEvent::Tab | FormEvent::BackTab
            | FormEvent::Hotkey(_) | FormEvent::Escape => true,
            FormEvent::Enter => self.commit_defined(),
            _ => if space_operates(self.fields_of(), self.focus_of() as int, ev) {
                self.commit_defined()
            } else {
                self.focused_edit_defined(ev)
            },
        }
    }

    /// What one event does to the form, and what it asks of the host.
    pub open spec fn handled(self, post: Self, ev: FormEvent, out: FormOutcome<A>) -> bool {
        let fs = self.fields_of();
        let f = self.focus_of() as int;
        let on_entry = 0 <= f < fs.len() && is_entry(fs[f].kind);
        &&& post.title_of() == self.title_of()
        &&& post.originals_of() == self.originals_of()
        &&& if self.popup_of() is Some {
            self.popup_handled(post, ev, out)
        } else {
            match ev {
                // Arrows stay inside a cluster, moving its caret.
                FormEvent::Up => quiet(out) && if on_cluster(fs, f) {
                    self.caret_moved(post, f, false)
                } else {
                    self.moved_to(post, row_step(fs, f, -1))
                },
                FormEvent::Down => quiet(out) && if on_cluster(fs, f) {
                    self.caret_moved(post, f, true)
                } else {
                    self.moved_to(post, row_step(fs, f, 1))
                },
                FormEvent::Tab => self.moved_to(post, tab_step(fs, f, 1)) && quiet(out),
                FormEvent::BackTab => self.moved_to(post, tab_step(fs, f, -1)) && quiet(out),
                FormEvent::Left => quiet(out) && if on_entry {
                    self.edited_by(post, ev)
                } else {
                    self.only_focus(post, col_step(fs, f, -1))
                },
                FormEvent::Right => quiet(out) && if on_entry {
                    self.edited_by(post, ev)
                } else {
                    self.only_focus(post, col_step(fs, f, 1))
                },
                // A hotkey on a button presses it; one on any other field
                // only focuses it.
                FormEvent::Hotkey(c) => match hotkey_from(fs, c, 0) {
                    None => self.only_focus(post, f) && quiet(out),
                    Some(t) => if fs[t].kind is Button {
                        self.activated(post, t, out)
                    } else {
                        self.moved_to(post, t) && quiet(out)
                    },
                },
                FormEvent::Escape => self.only_focus(post, f) && out.close && delivers(
                    out.actions@,
                    self.cancel_spec(),
                ),
                FormEvent::Enter => self.activated(post, f, out),
                _ => if space_operates(fs, f, ev) {
                    self.activated(post, f, out)
                } else {
                    self.edited_by(post, ev) && quiet(out)
                },
            }
        }
    }

    /// Record that field `i` was changed by the user. Out-of-range indices are
    /// ignored: `refresh_fields` may be handed a list of a different length.
    fn mark_dirty(&mut self, i: usize)
        ensures
            final(self).dirty_of() == mark(old(self).dirty_of(), i as int),
            final(self).fields_of() == old(self).fields_of(),
            final(self).focus_of() == old(self).focus_of(),
            final(self).popup_of() == old(self).popup_of(),
            final(self).originals_of() == old(self).originals_of(),
            final(self).title_of() == old(self).title_of(),
    {
        if i < self.dirty.len() {
            self.dirty.set(i, true);
        }
    }

    /// Whether focus is on an entry field, where Left/Right move the caret
    /// rather than moving between fields on a shared row.
    fn focused_is_entry(&self) -> (b: bool)
        ensures
            b == (self.focus_of() < self.fields_of().len() && is_entry(
                self.fields_of()[self.focus_of() as int].kind,
            )),
    {
        if self.focus < self.fields.len() {
            match self.fields[self.focus].kind {
                FieldKind::Number { .. } | FieldKind::Text { .. } => true,
                _ => false,
            }
        } else {
            false
        }
    }

    /// Whether `ev` is a Space that operates the focused field.
    fn space_operates(&self, ev: FormEvent) -> (b: bool)
        ensures
            b == space_operates(self.fields_of(), self.focus_of() as int, ev),
    {
        match ev {
            FormEvent::Char(c) => c == ' ' && !(self.focus < self.fields.len() && match self.fields[self.focus].kind {
                FieldKind::Text { .. } => true,
                _ => false,
            }),
            _ => false,
        }
    }

    /// Whether focus is on a cluster with items, whose caret the arrows move.
    fn focused_cluster(&self) -> (b: bool)
        ensures
            b == on_cluster(self.fields_of(), self.focus_of() as int),
    {
        if self.focus < self.fields.len() {
            match &self.fields[self.focus].kind {
                FieldKind::Cluster { items, .. } => items.len() > 0,
                _ => false,
            }
        } else {
            false
        }
    }

    /// Step the focused cluster's caret one item, wrapping.
    fn step_caret(&mut self, forward: bool)
        requires
            on_cluster(old(self).fields_of(), old(self).focus_of() as int),
        ensures
            old(self).caret_moved(*final(self), old(self).focus_of() as int, forward),
            final(self).originals_of() == old(self).originals_of(),
            final(self).title_of() == old(self).title_of(),
            old(self).wf() ==> final(self).wf(),
    {
        let f = self.focus;
        let ghost fs = self.fields@;
        match &mut self.fields[f].kind {
            FieldKind::Cluster { items, cursor, .. } => {
                *cursor = wrap_step(*cursor, items.len(), forward);
            },
            _ => {},
        }
        assert(self.fields@ =~= fs.update(f as int, self.fields@[f as int]));
        assert(fields_ok(fs) ==> fields_ok(self.fields@)) by {
            if fields_ok(fs) {
                assert forall|j: int| 0 <= j < self.fields@.len() implies field_ok(
                    #[trigger] self.fields@[j],
                ) by {
                    if j != f {
                        assert(self.fields@[j] == fs[j]);
                    }
                }
            }
        }
    }

    /// Apply one editing key to whichever entry field has focus.
    fn edit_focused(&mut self, ev: FormEvent)
        requires
            old(self).focused_edit_defined(ev),
        ensures
            old(self).edited_by(*final(self), ev),
            final(self).originals_of() == old(self).originals_of(),
            final(self).title_of() == old(self).title_of(),
            old(self).wf() ==> final(self).wf(),
    {
        let i = self.focus;
        if i >= self.fields.len() {
            return;
        }
        let ghost fs = self.fields@;
        match &mut self.fields[i].kind {
            FieldKind::Number { buffer, cursor, selected, overtype, .. } => {
                apply_edit(buffer, cursor, selected, overtype, 4, true, ev);
            },
            FieldKind::Text { buffer, cursor, selected, overtype, max_len, .. } => {
                let limit = *max_len;
                apply_edit(buffer, cursor, selected, overtype, limit, false, ev);
            },
            _ => {},
        }
        assert(fields_ok(fs) ==> fields_ok(self.fields@)) by {
            if fields_ok(fs) {
                assert(field_ok(fs[i as int]));
                assert forall|j: int| 0 <= j < self.fields@.len() implies field_ok(
                    #[trigger] self.fields@[j],
                ) by {
                    if j != i {
                        assert(self.fields@[j] == fs[j]);
                    }
                }
            }
        }
        assert(self.fields@.len() == fs.len());
        assert(forall|j: int| 0 <= j < fs.len() && j != i ==> self.fields@[j] == fs[j]);
        assert(self.fields@[i as int].label == fs[i as int].label);
        assert(self.fields@[i as int].restore == fs[i as int].restore);
        proof {
            if is_entry(fs[i as int].kind) {
                assert(entry_set(fs[i as int].kind, self.fields@[i as int].kind, value_of(fs[i as int].kind),
                    edit(entry_of(fs[i as int].kind), entry_limit(fs[i as int].kind), fs[i as int].kind is Number, ev)));
            } else {
                assert(self.fields@ == fs);
            }
        }
    }

    /// Re-select an entry field's whole value when focus lands on it, which is
    /// what Turbo Vision did so that typing replaces rather than appends.
    fn reselect_focused(&mut self)
        ensures
            fields_reselected(old(self).fields_of(), final(self).fields_of(), old(self).focus_of() as int),
            final(self).focus_of() == old(self).focus_of(),
            final(self).popup_of() == old(self).popup_of(),
            final(self).dirty_of() == old(self).dirty_of(),
            final(self).originals_of() == old(self).originals_of(),
            final(self).title_of() == old(self).title_of(),
            old(self).wf() ==> final(self).wf(),
    {
        let i = self.focus;
        if i >= self.fields.len() {
            return;
        }
        let ghost fs = self.fields@;
        match &mut self.fields[i].kind {
            FieldKind::Number { buffer, cursor, selected, .. } => {
                *selected = true;
                *cursor = buffer.as_str().unicode_len();
            },
            FieldKind::Text { buffer, cursor, selected, .. } => {
                *selected = true;
                *cursor = buffer.as_str().unicode_len();
            },
            _ => {},
        }
        assert(fields_ok(fs) ==> fields_ok(self.fields@)) by {
            if fields_ok(fs) {
                assert(field_ok(fs[i as int]));
                assert forall|j: int| 0 <= j < self.fields@.len() implies field_ok(
                    #[trigger] self.fields@[j],
                ) by {
                    if j != i {
                        assert(self.fields@[j] == fs[j]);
                    }
                }
            }
        }
        assert(self.fields@.len() == fs.len());
        assert(forall|j: int| 0 <= j < fs.len() && j != i ==> self.fields@[j] == fs[j]);
        assert(self.fields@[i as int].label == fs[i as int].label);
        assert(self.fields@[i as int].restore == fs[i as int].restore);
        proof {
            if is_entry(fs[i as int].kind) {
                assert(entry_set(fs[i as int].kind, self.fields@[i as int].kind, value_of(fs[i as int].kind),
                    select_all(entry_of(fs[i as int].kind))));
            } else {
                assert(self.fields@ == fs);
            }
        }
    }
}

impl<A: Clone> FormState<A> {
    /// Enter on the focused field.
    fn activate(&mut self) -> (out: FormOutcome<A>)
        requires
            old(self).commit_defined(),
        ensures
            old(self).activated(*final(self), old(self).focus_of() as int, out),
            final(self).originals_of() == old(self).originals_of(),
            final(self).title_of() == old(self).title_of(),
            old(self).wf() ==> final(self).wf(),
    {
        let focus = self.focus;
        if focus >= self.fields.len() {
            return FormOutcome::nothing();
        }
        let ghost fs = self.fields@;
        match &self.fields[focus].kind {
            FieldKind::Choice { selected, .. } => {
                let highlight = match selected {
                    Some(h) => *h,
                    None => 0,
                };
                self.popup = Some(Popup { field: focus, highlight });
                return FormOutcome::nothing();
            },
            FieldKind::Button(ButtonKind::Okay) => {
                return FormOutcome::closing(Vec::new());
            },
            FieldKind::Button(ButtonKind::Cancel) => {
                let actions = self.cancel_actions();
                return FormOutcome::closing(actions);
            },
            FieldKind::ReadOnly(_) => {
                return FormOutcome::nothing();
            },
            // A caret past the items has nothing to choose.
            FieldKind::Cluster { items, cursor, .. } => {
                if *cursor >= items.len() {
                    return FormOutcome::nothing();
                }
            },
            _ => {},
        }
        // An empty or invalid number buffer means nothing was typed: no
        // change, no action, and crucially not dirty either.
        let mut parsed: u32 = 0;
        if let FieldKind::Number { buffer, .. } = &self.fields[focus].kind {
            match parse_u32_of(buffer.as_str()) {
                Some(p) => {
                    parsed = p;
                },
                None => {
                    return FormOutcome::nothing();
                },
            }
        }
        // Toggle, Text or Number: the arms that change a value report it, and
        // the dirty mark and focus move are applied once the field is
        // released.
        let (result, changed, advance): (Option<A>, bool, bool) = match &mut self.fields[focus].kind {
            FieldKind::Toggle { on, on_action, off_action } => {
                *on = !*on;
                let a = if *on {
                    on_action.clone()
                } else {
                    off_action.clone()
                };
                (Some(a), true, false)
            },
            FieldKind::Cluster { style, items, cursor } => {
                if *cursor < items.len() {
                    let a = choose_item(items, *style, *cursor);
                    (a, true, false)
                } else {
                    (None, false, false)
                }
            },
            FieldKind::Text { buffer, selected, commit, .. } => {
                *selected = false;
                let a = commit.commit(buffer.as_str());
                (Some(a), true, true)
            },
            FieldKind::Number { value, buffer, cursor, selected, min, max, commit, .. } => {
                let clamped = if parsed < *min {
                    *min
                } else if parsed > *max {
                    *max
                } else {
                    parsed
                };
                // Normalise the live buffer to the clamped value either way.
                let digits = decimal_string(clamped);
                let len = digits.as_str().unicode_len();
                *buffer = digits;
                *cursor = len;
                *selected = false;
                if clamped == *value {
                    (None, false, true)
                } else {
                    *value = clamped;
                    (Some(commit.commit(clamped)), true, true)
                }
            },
            _ => (None, false, false),
        };
        let ghost fs1 = self.fields@;
        proof {
            assert(fs1.len() == fs.len());
            assert(forall|j: int| 0 <= j < fs.len() && j != focus ==> fs1[j] == fs[j]);
            assert(fs1[focus as int].label == fs[focus as int].label);
            assert(fs1[focus as int].restore == fs[focus as int].restore);
            match fs[focus as int].kind {
                FieldKind::Toggle { .. } => {
                    assert(fs1 =~= fs.update(focus as int, fs1[focus as int]));
                },
                _ => {},
            }
        }
        if changed {
            self.mark_dirty(focus);
        }
        if advance {
            if let Some(i) = self.ok_button() {
                self.focus = i;
            }
        }
        assert(fields_ok(fs) ==> fields_ok(self.fields@)) by {
            if fields_ok(fs) {
                assert(field_ok(fs[focus as int]));
                assert forall|j: int| 0 <= j < self.fields@.len() implies field_ok(
                    #[trigger] self.fields@[j],
                ) by {
                    if j != focus {
                        assert(self.fields@[j] == fs[j]);
                    }
                }
            }
        }
        match result {
            Some(a) => FormOutcome::action(a),
            None => FormOutcome::nothing(),
        }
    }

    /// An event while the choice popup is open.
    fn handle_popup(&mut self, ev: FormEvent) -> (out: FormOutcome<A>)
        requires
            old(self).popup_of() is Some,
        ensures
            old(self).popup_handled(*final(self), ev, out),
            final(self).originals_of() == old(self).originals_of(),
            final(self).title_of() == old(self).title_of(),
            old(self).wf() ==> final(self).wf(),
    {
        let popup = match self.popup {
            Some(p) => p,
            None => {
                return FormOutcome::nothing();
            },
        };
        let count = if popup.field < self.fields.len() {
            match &self.fields[popup.field].kind {
                FieldKind::Choice { options, .. } => options.len(),
                _ => 0,
            }
        } else {
            0
        };
        if count == 0 {
            self.popup = None;
            return FormOutcome::nothing();
        }
        match ev {
            FormEvent::Up => {
                let h = wrap_step(popup.highlight, count, false);
                proof {
                    lemma_mod_add_multiples_vanish(popup.highlight - 1, count as int);
                }
                self.popup = Some(Popup { field: popup.field, highlight: h });
                FormOutcome::nothing()
            },
            FormEvent::Down => {
                let h = wrap_step(popup.highlight, count, true);
                self.popup = Some(Popup { field: popup.field, highlight: h });
                FormOutcome::nothing()
            },
            FormEvent::Escape => {
                self.popup = None;
                FormOutcome::nothing()
            },
            FormEvent::Enter => {
                self.popup = None;
                let ghost fs = self.fields@;
                let picked: Option<A> = match &mut self.fields[popup.field].kind {
                    FieldKind::Choice { options, selected } => {
                        *selected = Some(popup.highlight);
                        if popup.highlight < options.len() {
                            Some(options[popup.highlight].action.clone())
                        } else {
                            None
                        }
                    },
                    _ => None,
                };
                proof {
                    assert(self.fields@ =~= fs.update(popup.field as int, self.fields@[popup.field as int]));
                }
                assert(fields_ok(fs) ==> fields_ok(self.fields@)) by {
                    if fields_ok(fs) {
                        assert forall|j: int| 0 <= j < self.fields@.len() implies field_ok(
                            #[trigger] self.fields@[j],
                        ) by {
                            if j != popup.field {
                                assert(self.fields@[j] == fs[j]);
                            }
                        }
                    }
                }
                match picked {
                    Some(a) => {
                        self.mark_dirty(popup.field);
                        FormOutcome::action(a)
                    },
                    None => FormOutcome::nothing(),
                }
            },
            // A popup list is navigated only with Up/Down/Enter/Escape; an
            // accelerator aimed at a field behind the popup must not reach
            // past it while it is modal.
            _ => FormOutcome::nothing(),
        }
    }

    /// Focus the field claiming `c` — and, if it is a button, press it.
    ///
    /// That split is the CUA rule: an accelerator on a button activates it,
    /// while one on any other control only moves focus there.
    fn on_hotkey(&mut self, c: char) -> (out: FormOutcome<A>)
        ensures
            match hotkey_from(old(self).fields_of(), c, 0) {
                None => old(self).only_focus(*final(self), old(self).focus_of() as int) && quiet(out),
                Some(t) => if old(self).fields_of()[t].kind is Button {
                    old(self).activated(*final(self), t, out)
                } else {
                    old(self).moved_to(*final(self), t) && quiet(out)
                },
            },
            final(self).originals_of() == old(self).originals_of(),
            final(self).title_of() == old(self).title_of(),
            old(self).wf() ==> final(self).wf(),
    {
        let target = match self.hotkey_target(c) {
            Some(t) => t,
            None => {
                return FormOutcome::nothing();
            },
        };
        proof {
            lemma_hotkey_in_range(self.fields@, c, 0);
        }
        self.focus = target;
        self.reselect_focused();
        if is_button(&self.fields[target]) {
            self.activate()
        } else {
            FormOutcome::nothing()
        }
    }

    /// Feed one event. Returns the actions to apply and whether to close.
    ///
    /// Every event is taken that the form [`accepts`](FormState::accepts),
    /// which on a form of well-formed fields is all of them short of a caret
    /// at `usize::MAX`; and handling one keeps well-formed fields well-formed.
    pub fn handle(&mut self, ev: FormEvent) -> (out: FormOutcome<A>)
        requires
            old(self).accepts(ev),
        ensures
            old(self).handled(*final(self), ev, out),
            old(self).wf() ==> final(self).wf(),
    {
        if self.popup.is_some() {
            return self.handle_popup(ev);
        }
        match ev {
            FormEvent::Up => {
                if self.focused_cluster() {
                    self.step_caret(false);
                } else {
                    self.step_row(false);
                    self.reselect_focused();
                }
                FormOutcome::nothing()
            },
            FormEvent::Down => {
                if self.focused_cluster() {
                    self.step_caret(true);
                } else {
                    self.step_row(true);
                    self.reselect_focused();
                }
                FormOutcome::nothing()
            },
            FormEvent::Left => {
                if self.focused_is_entry() {
                    self.edit_focused(ev);
                } else {
                    self.step_col(false);
                }
                FormOutcome::nothing()
            },
            FormEvent::Right => {
                if self.focused_is_entry() {
                    self.edit_focused(ev);
                } else {
                    self.step_col(true);
                }
                FormOutcome::nothing()
            },
            FormEvent::Tab => {
                self.step_focus(true);
                self.reselect_focused();
                FormOutcome::nothing()
            },
            FormEvent::BackTab => {
                self.step_focus(false);
                self.reselect_focused();
                FormOutcome::nothing()
            },
            FormEvent::Hotkey(c) => self.on_hotkey(c),
            FormEvent::Escape => {
                let actions = self.cancel_actions();
                FormOutcome::closing(actions)
            },
            FormEvent::Enter => self.activate(),
            _ => {
                if self.space_operates(ev) {
                    self.activate()
                } else {
                    self.edit_focused(ev);
                    FormOutcome::nothing()
                }
            },
        }
    }
}

/// A hotkey target is a field of the form.
proof fn lemma_hotkey_in_range<A>(fs: Seq<Field<A>>, c: char, i: int)
    ensures
        hotkey_from(fs, c, i) matches Some(t) ==> 0 <= t < fs.len() && i <= t,
    decreases fs.len() - i,
{
    if 0 <= i < fs.len() && !claims(fs[i], c) {
        lemma_hotkey_in_range(fs, c, i + 1);
    }
}

/// A form on which the user has changed nothing — as every form is when
/// it opens — restores nothing on Cancel: an untouched field must stay
/// untouched.
pub proof fn lemma_untouched_form_restores_nothing<A: Clone>(f: FormState<A>)
    requires
        forall|i: int| 0 <= i < f.dirty_of().len() ==> !#[trigger] f.dirty_of()[i],
    ensures
        f.cancel_spec() == Seq::<A>::empty(),
{
    lemma_clean_prefix_restores_nothing(f.originals_of(), f.dirty_of(), f.dirty_of().len() as int);
}

proof fn lemma_clean_prefix_restores_nothing<A>(originals: Seq<Seq<A>>, dirty: Seq<bool>, k: int)
    requires
        k <= dirty.len(),
        forall|i: int| 0 <= i < dirty.len() ==> !#[trigger] dirty[i],
    ensures
        restore_upto(originals, dirty, k) == Seq::<A>::empty(),
    decreases k,
{
    if k > 0 {
        lemma_clean_prefix_restores_nothing(originals, dirty, k - 1);
        assert(restore_upto(originals, dirty, k) =~= Seq::<A>::empty());
    }
}

/// An open popup over a list of options is modal: every event but Up,
/// Down, Enter and Escape leaves the form exactly as it was and asks
/// nothing of the host — an accelerator aimed at a field behind it cannot
/// reach past it.
pub proof fn lemma_popup_is_modal<A: Clone>(
    pre: FormState<A>,
    post: FormState<A>,
    ev: FormEvent,
    out: FormOutcome<A>,
)
    requires
        pre.popup_of() is Some,
        pre.popup_count() > 0,
        pre.handled(post, ev, out),
        !(ev is Up || ev is Down || ev is Enter || ev is Escape),
    ensures
        post.fields_of() == pre.fields_of(),
        post.focus_of() == pre.focus_of(),
        post.popup_of() == pre.popup_of(),
        post.dirty_of() == pre.dirty_of(),
        out.actions@.len() == 0,
        !out.close,
{
}

/// Up and Down move between rows and never along the button bar: from a
/// button they leave the bar, unless the bar is the only row, in which case
/// focus stays on the same button.
pub proof fn lemma_up_down_leave_the_button_bar<A>(fs: Seq<Field<A>>, f: int, forward: bool)
    requires
        bar_start(fs) <= f < fs.len(),
    ensures
        row_count(fs) > 1 ==> row_step(fs, f, delta(forward)) < bar_start(fs),
        row_count(fs) == 1 ==> row_step(fs, f, delta(forward)) == f,
{
    let bs = bar_start(fs);
    let singles = single_rows(fs, bs);
    let rc = row_count(fs);
    lemma_run_start(fs, fs.len() as int);
    lemma_single_rows_bounded(fs, bs);
    let r = singles.len() as int;
    lemma_wrap(r, rc, forward);
    if rc > 1 {
        let tr = (r + delta(forward)) % rc;
        assert(tr < singles.len());
        assert(0 <= singles[tr] < bs);
    }
}

/// Left and Right move focus only along the button bar: on a single-field
/// row they do nothing, and from a button they land on a button.
pub proof fn lemma_left_right_stay_in_the_row<A>(fs: Seq<Field<A>>, f: int, forward: bool)
    ensures
        !(bar_start(fs) <= f < fs.len()) ==> col_step(fs, f, delta(forward)) == f,
        bar_start(fs) <= f < fs.len() ==> bar_start(fs) <= col_step(fs, f, delta(forward))
            < fs.len(),
{
    let bs = bar_start(fs);
    if bs <= f < fs.len() {
        lemma_mod_bound(f - bs + delta(forward), fs.len() - bs);
    }
}

/// Tab and Shift+Tab land on a field that can take focus whenever the form
/// has one; with none, focus stays where it was.
pub proof fn lemma_tab_lands_on_a_focusable_field<A>(fs: Seq<Field<A>>, f: int, forward: bool)
    ensures
        tab_step(fs, f, delta(forward)) == f || focusable_at(fs, tab_step(fs, f, delta(forward))),
        (exists|j: int| focusable_at(fs, j)) ==> focusable_at(fs, tab_step(fs, f, delta(forward))),
{
    let n = fs.len() as int;
    let d = delta(forward);
    lemma_scan_finds_focusable(fs, f, d, n as nat);
    if exists|j: int| focusable_at(fs, j) {
        let j = choose|j: int| focusable_at(fs, j);
        // The number of steps from `f` to `j` in direction `d`.
        let m = if forward {
            (j - f) % n
        } else {
            (f - j) % n
        };
        let steps = if m == 0 {
            n
        } else {
            m
        };
        lemma_mod_bound(j - f, n);
        lemma_mod_bound(f - j, n);
        lemma_steps_reach(f, j, n, forward, m);
        lemma_scan_reaches(fs, f, d, n as nat, steps, j);
    }
}

/// Whatever a scan returns can take focus.
proof fn lemma_scan_finds_focusable<A>(fs: Seq<Field<A>>, i: int, d: int, k: nat)
    ensures
        focus_scan(fs, i, d, k) matches Some(j) ==> focusable_at(fs, j),
    decreases k,
{
    if k > 0 && fs.len() > 0 {
        let j = (i + d) % (fs.len() as int);
        if !focusable_at(fs, j) {
            lemma_scan_finds_focusable(fs, j, d, (k - 1) as nat);
        }
    }
}

/// Stepping `steps` times from `f` in direction `forward` arrives at `j`.
proof fn lemma_steps_reach(f: int, j: int, n: int, forward: bool, m: int)
    requires
        0 <= j < n,
        m == if forward {
            (j - f) % n
        } else {
            (f - j) % n
        },
    ensures
        (f + delta(forward) * (if m == 0 {
            n
        } else {
            m
        })) % n == j,
{
    let steps = if m == 0 {
        n
    } else {
        m
    };
    if forward {
        // (f + (j - f) % n) % n == (f + (j - f)) % n == j
        lemma_add_mod_noop_right(f, j - f, n);
        lemma_small_mod(j as nat, n as nat);
        if m == 0 {
            lemma_mod_add_multiples_vanish(f, n);
            lemma_add_mod_noop_right(f, j - f, n);
            lemma_mod_self_0(n);
        }
    } else {
        // (f - (f - j) % n) % n == (f - (f - j)) % n == j
        lemma_add_mod_noop_right(f, -((f - j) % n), n);
        lemma_sub_mod_noop(f, f - j, n);
        lemma_small_mod(j as nat, n as nat);
        if m == 0 {
            lemma_mod_add_multiples_vanish(f - n, n);
        }
    }
}

/// `(x - y % m) % m == (x - y) % m`.
proof fn lemma_sub_mod_noop(x: int, y: int, m: int)
    requires
        0 < m,
    ensures
        (x - y % m) % m == (x - y) % m,
{
    vstd::arithmetic::div_mod::lemma_sub_mod_noop_right(x, y, m);
}

/// A scan with `k` steps left reaches a focusable field `j` that is
/// `steps <= k` steps away.
proof fn lemma_scan_reaches<A>(fs: Seq<Field<A>>, i: int, d: int, k: nat, steps: int, j: int)
    requires
        fs.len() > 0,
        1 <= steps <= k,
        d == 1 || d == -1,
        focusable_at(fs, j),
        (i + d * steps) % (fs.len() as int) == j,
    ensures
        focus_scan(fs, i, d, k) is Some,
    decreases k,
{
    let n = fs.len() as int;
    let next = (i + d) % n;
    if !focusable_at(fs, next) {
        if steps == 1 {
            assert(next == j);
        } else {
            // (next + d * (steps - 1)) % n == (i + d * steps) % n
            lemma_add_mod_noop(i + d, d * (steps - 1), n);
            lemma_add_mod_noop(next, d * (steps - 1), n);
            vstd::arithmetic::div_mod::lemma_mod_twice(i + d, n);
            assert(i + d + d * (steps - 1) == i + d * steps) by (nonlinear_arith);
            lemma_scan_reaches(fs, next, d, (k - 1) as nat, steps - 1, j);
        }
    }
}

/// Every field from the start of a run of buttons up to its end is a button.
proof fn lemma_run_is_buttons<A>(fs: Seq<Field<A>>, k: int, j: int)
    requires
        0 <= k <= fs.len(),
        run_start(fs, k) <= j < k,
    ensures
        fs[j].kind is Button,
    decreases k,
{
    if 0 < k && fs[k - 1].kind is Button && j < k - 1 {
        lemma_run_is_buttons(fs, k - 1, j);
    }
}

/// What `ok_from` finds is a button of the form.
proof fn lemma_ok_from_is_button<A>(fs: Seq<Field<A>>, i: int)
    ensures
        ok_from(fs, i) matches Some(k) ==> 0 <= k < fs.len() && fs[k].kind is Button,
    decreases fs.len() - i,
{
    if 0 <= i < fs.len() && !(fs[i].kind matches FieldKind::Button(ButtonKind::Okay)) {
        lemma_ok_from_is_button(fs, i + 1);
    }
}

/// Whenever an event moves focus onto a different entry field, that
/// field's whole value is selected with the caret after its last character,
/// so the first character typed replaces it.
pub proof fn lemma_focus_lands_selected<A: Clone>(
    pre: FormState<A>,
    post: FormState<A>,
    ev: FormEvent,
    out: FormOutcome<A>,
)
    requires
        pre.handled(post, ev, out),
        post.focus_of() != pre.focus_of(),
        post.focus_of() < post.fields_of().len(),
        is_entry(post.fields_of()[post.focus_of() as int].kind),
    ensures
        entry_of(post.fields_of()[post.focus_of() as int].kind) == select_all(
            entry_of(pre.fields_of()[post.focus_of() as int].kind),
        ),
{
    let fs = pre.fields_of();
    let f = pre.focus_of() as int;
    let t = post.focus_of() as int;
    lemma_run_start(fs, fs.len() as int);
    if pre.popup_of() is None {
        match ev {
            FormEvent::Left | FormEvent::Right => {
                if bar_start(fs) <= f < fs.len() {
                    lemma_left_right_stay_in_the_row(fs, f, ev is Right);
                    lemma_run_is_buttons(fs, fs.len() as int, t);
                }
            },
            FormEvent::Hotkey(c) => {
                lemma_hotkey_in_range(fs, c, 0);
            },
            FormEvent::Enter => {
                if 0 <= f < fs.len() && (fs[f].kind is Number || fs[f].kind is Text) {
                    lemma_ok_from_is_button(post.fields_of(), 0);
                }
            },
            _ => {
                if space_operates(fs, f, ev) && 0 <= f < fs.len() && fs[f].kind is Number {
                    lemma_ok_from_is_button(post.fields_of(), 0);
                }
            },
        }
    }
}

/// Committing a number never leaves a value outside its bounds: after Enter
/// on a number field whose `min` is at most its `max`, the field holds
/// either the value it had (nothing was typed) or one within `min..=max`.
pub proof fn lemma_number_commit_is_clamped<A: Clone>(
    pre: FormState<A>,
    post: FormState<A>,
    out: FormOutcome<A>,
)
    requires
        pre.handled(post, FormEvent::Enter, out),
        pre.popup_of() is None,
        pre.focus_of() < pre.fields_of().len(),
        pre.fields_of()[pre.focus_of() as int].kind matches FieldKind::Number { min, max, .. }
            && min <= max,
    ensures
        post.fields_of()[pre.focus_of() as int].kind matches FieldKind::Number { value, min, max, .. }
            && (value == value_of(pre.fields_of()[pre.focus_of() as int].kind) || min <= value
            <= max),
{
}

/// Events mark as changed only the field they act on: the focused field,
/// or the field of an open popup. A mark is never cleared, so Cancel
/// restores exactly the fields the user touched.
pub proof fn lemma_only_the_touched_field_is_marked<A: Clone>(
    pre: FormState<A>,
    post: FormState<A>,
    ev: FormEvent,
    out: FormOutcome<A>,
)
    requires
        pre.handled(post, ev, out),
    ensures
        post.dirty_of().len() == pre.dirty_of().len(),
        forall|j: int| 0 <= j < pre.dirty_of().len() && #[trigger] pre.dirty_of()[j] ==> post.dirty_of()[j],
        forall|j: int|
            0 <= j < pre.dirty_of().len() && #[trigger] post.dirty_of()[j] && !pre.dirty_of()[j] ==> j
                == pre.focus_of() || (pre.popup_of() matches Some(p) && j == p.field),
{
    let fs = pre.fields_of();
    if pre.popup_of() is None {
        if let FormEvent::Hotkey(c) = ev {
            lemma_hotkey_in_range(fs, c, 0);
        }
    }
}

/// A form whose fields are all well-formed accepts every event, save Right
/// on an entry whose caret sits at `usize::MAX`.
pub proof fn lemma_well_formed_forms_accept<A: Clone>(f: FormState<A>, ev: FormEvent)
    requires
        f.wf(),
    ensures
        f.accepts(ev) || (ev is Right && entry_of(f.fields_of()[f.focus_of() as int].kind).cursor
            == usize::MAX),
{
    let fs = f.fields_of();
    let i = f.focus_of() as int;
    if 0 <= i < fs.len() {
        assert(field_ok(fs[i]));
    }
}

/// Over any run of events from a form nobody has touched yet (as every form
/// is when [`FormState::new`] builds it), the fields marked as changed are
/// exactly those some event changed — each of them the field that event
/// acted on — and the captured restore actions never change. So what Cancel
/// hands back at the end, [`FormState::cancel_spec`], is the opening restore
/// actions of exactly the fields the user touched, in field order.
pub proof fn lemma_cancel_restores_what_was_touched<A: Clone>(
    states: Seq<FormState<A>>,
    evs: Seq<FormEvent>,
    outs: Seq<FormOutcome<A>>,
)
    requires
        states.len() == evs.len() + 1,
        outs.len() == evs.len(),
        forall|j: int| 0 <= j < states[0].dirty_of().len() ==> !#[trigger] states[0].dirty_of()[j],
        forall|i: int|
            0 <= i < evs.len() ==> #[trigger] states[i].handled(states[i + 1], evs[i], outs[i]),
    ensures
        states.last().originals_of() == states[0].originals_of(),
        states.last().dirty_of().len() == states[0].dirty_of().len(),
        forall|j: int|
            0 <= j < states[0].dirty_of().len() ==> (#[trigger] states.last().dirty_of()[j] <==> exists|i: int|
                0 <= i < evs.len() && !states[i].dirty_of()[j] && #[trigger] states[i
                    + 1].dirty_of()[j]),
        forall|i: int, j: int|
            0 <= i < evs.len() && 0 <= j < states[i].dirty_of().len() && !states[i].dirty_of()[j]
                && #[trigger] states[i + 1].dirty_of()[j] ==> j == states[i].focus_of() || (
            states[i].popup_of() matches Some(p) && j == p.field),
        states.last().cancel_spec() == restore_upto(
            states[0].originals_of(),
            states.last().dirty_of(),
            states[0].dirty_of().len() as int,
        ),
    decreases evs.len(),
{
    let n = evs.len() as int;
    assert forall|i: int, j: int|
        0 <= i < n && 0 <= j < states[i].dirty_of().len() && !states[i].dirty_of()[j]
            && #[trigger] states[i + 1].dirty_of()[j] implies j == states[i].focus_of() || (
        states[i].popup_of() matches Some(p) && j == p.field) by {
        assert(states[i].handled(states[i + 1], evs[i], outs[i]));
        lemma_only_the_touched_field_is_marked(states[i], states[i + 1], evs[i], outs[i]);
    }
    if n > 0 {
        let prev = states.drop_last();
        lemma_cancel_restores_what_was_touched(prev, evs.drop_last(), outs.drop_last());
        let a = states[n - 1];
        let b = states[n];
        assert(prev.last() == a);
        assert(states[n - 1].handled(states[n - 1 + 1], evs[n - 1], outs[n - 1]));
        lemma_only_the_touched_field_is_marked(a, b, evs[n - 1], outs[n - 1]);
        let d0 = states[0].dirty_of();
        assert forall|j: int| 0 <= j < d0.len() implies (#[trigger] b.dirty_of()[j] <==> exists|i: int|
            0 <= i < n && !states[i].dirty_of()[j] && #[trigger] states[i + 1].dirty_of()[j]) by {
            if b.dirty_of()[j] {
                if !a.dirty_of()[j] {
                    assert(!states[n - 1].dirty_of()[j] && states[n - 1 + 1].dirty_of()[j]);
                } else {
                    assert(prev.last().dirty_of()[j]);
                    let i = choose|i: int|
                        0 <= i < n - 1 && !prev[i].dirty_of()[j] && #[trigger] prev[i + 1].dirty_of()[j];
                    assert(prev[i] == states[i] && prev[i + 1] == states[i + 1]);
                }
            } else {
                if exists|i: int| 0 <= i < n && !states[i].dirty_of()[j] && #[trigger] states[i + 1].dirty_of()[j] {
                    let i = choose|i: int|
                        0 <= i < n && !states[i].dirty_of()[j] && #[trigger] states[i + 1].dirty_of()[j];
                    if i < n - 1 {
                        assert(prev[i] == states[i] && prev[i + 1] == states[i + 1]);
                        assert(prev.last().dirty_of()[j]);
                    }
                }
            }
        }
    }
}

/// In a cluster the arrows move the caret without choosing: Up or Down on a
/// focused cluster leaves every item as it was, marks nothing changed and
/// emits nothing, and only the caret moves, wrapping round the items.
pub proof fn lemma_caret_moves_without_choosing<A: Clone>(
    pre: FormState<A>,
    post: FormState<A>,
    ev: FormEvent,
    out: FormOutcome<A>,
)
    requires
        pre.handled(post, ev, out),
        pre.popup_of() is None,
        ev is Up || ev is Down,
        on_cluster(pre.fields_of(), pre.focus_of() as int),
    ensures
        post.focus_of() == pre.focus_of(),
        post.dirty_of() == pre.dirty_of(),
        out.actions@.len() == 0,
        !out.close,
        match (pre.fields_of()[pre.focus_of() as int].kind, post.fields_of()[pre.focus_of() as int].kind) {
            (
                FieldKind::Cluster { style, items, cursor },
                FieldKind::Cluster { style: s2, items: i2, cursor: c2 },
            ) => s2 == style && i2 == items && c2 < items@.len(),
            _ => false,
        },
{
}

/// Choosing in a radio cluster is exclusive: after Enter on a focused radio
/// cluster whose caret is on an item, that item is the only one on.
pub proof fn lemma_radio_choice_is_exclusive<A: Clone>(
    pre: FormState<A>,
    post: FormState<A>,
    out: FormOutcome<A>,
)
    requires
        pre.handled(post, FormEvent::Enter, out),
        pre.popup_of() is None,
        pre.focus_of() < pre.fields_of().len(),
        pre.fields_of()[pre.focus_of() as int].kind matches FieldKind::Cluster { style, items, cursor }
            && style == ClusterStyle::Radio && cursor < items@.len(),
    ensures
        match post.fields_of()[pre.focus_of() as int].kind {
            FieldKind::Cluster { items, cursor, .. } => forall|j: int|
                0 <= j < items@.len() ==> (#[trigger] items@[j].on <==> j == cursor),
            _ => false,
        },
{
}

/// Backspace on an entry that is not whole-selected deletes the character
/// just before the caret `c`, keeping the rest in order, and the caret steps
/// back onto the gap; at the start of the text it does nothing.
pub proof fn lemma_backspace_deletes_before_the_caret(e: EntryView, limit: int, digits_only: bool)
    requires
        !e.selected,
        0 <= e.cursor <= e.text.len(),
    ensures
        ({
            let c = e.cursor;
            let t = e.text;
            let r = edit(e, limit, digits_only, FormEvent::Backspace);
            &&& c > 0 ==> r.text == t.subrange(0, c - 1) + t.subrange(c, t.len() as int) && r.cursor
                == c - 1
            &&& c == 0 ==> r.text == t && r.cursor == 0
            &&& !r.selected && r.overtype == e.overtype
        }),
{
    let c = e.cursor;
    let t = e.text;
    if c > 0 {
        assert(t.remove(c - 1) =~= t.subrange(0, c - 1) + t.subrange(c, t.len() as int));
    }
}

/// Delete on an entry that is not whole-selected deletes the character
/// under the caret `c`, keeping the rest in order, and the caret stays; at
/// the end of the text it does nothing.
pub proof fn lemma_delete_deletes_at_the_caret(e: EntryView, limit: int, digits_only: bool)
    requires
        !e.selected,
        0 <= e.cursor <= e.text.len(),
    ensures
        ({
            let c = e.cursor;
            let t = e.text;
            let r = edit(e, limit, digits_only, FormEvent::Delete);
            &&& c < t.len() ==> r.text == t.subrange(0, c) + t.subrange(c + 1, t.len() as int)
                && r.cursor == c
            &&& c == t.len() ==> r.text == t && r.cursor == c
            &&& !r.selected && r.overtype == e.overtype
        }),
{
    let c = e.cursor;
    let t = e.text;
    if c < t.len() {
        assert(t.remove(c) =~= t.subrange(0, c) + t.subrange(c + 1, t.len() as int));
    }
}

/// A character the entry accepts, typed into an entry that is not
/// whole-selected, goes in at the caret `c` in insert mode (while there is
/// room) and replaces the character under the caret in overtype mode; either
/// way the caret moves past it. A character the entry refuses changes
/// nothing.
pub proof fn lemma_typing_acts_at_the_caret(e: EntryView, limit: int, digits_only: bool, ch: char)
    requires
        !e.selected,
        0 <= e.cursor <= e.text.len(),
    ensures
        ({
            let c = e.cursor;
            let t = e.text;
            let n = t.len() as int;
            let r = edit(e, limit, digits_only, FormEvent::Char(ch));
            let accepted = !(digits_only && !crate::text::is_digit(ch));
            &&& accepted && !e.overtype && n < limit ==> r.text == t.subrange(0, c) + seq![ch]
                + t.subrange(c, n) && r.cursor == c + 1
            &&& accepted && e.overtype && c < n ==> r.text == t.subrange(0, c) + seq![ch]
                + t.subrange(c + 1, n) && r.cursor == c + 1
            &&& !accepted ==> r == e
            &&& !r.selected && r.overtype == e.overtype
        }),
{
    let c = e.cursor;
    let t = e.text;
    let n = t.len() as int;
    if c < n {
        assert(t.update(c, ch) =~= t.subrange(0, c) + seq![ch] + t.subrange(c + 1, n));
    }
    assert(t.insert(c, ch) =~= t.subrange(0, c) + seq![ch] + t.subrange(c, n));
}

/// The caret keys move the caret and leave the text alone: Home to the
/// start, End to the end, Left and Right one place, stopping at the ends.
/// Insert switches between insert and overtype mode.
pub proof fn lemma_caret_keys_move_the_caret(e: EntryView, limit: int, digits_only: bool)
    requires
        !e.selected,
        0 <= e.cursor <= e.text.len(),
    ensures
        ({
            let c = e.cursor;
            let n = e.text.len() as int;
            &&& edit(e, limit, digits_only, FormEvent::Home).cursor == 0
            &&& edit(e, limit, digits_only, FormEvent::End).cursor == n
            &&& edit(e, limit, digits_only, FormEvent::Left).cursor == if c > 0 {
                c - 1
            } else {
                0
            }
            &&& edit(e, limit, digits_only, FormEvent::Right).cursor == if c < n {
                c + 1
            } else {
                n
            }
            &&& edit(e, limit, digits_only, FormEvent::Home).text == e.text
            &&& edit(e, limit, digits_only, FormEvent::End).text == e.text
            &&& edit(e, limit, digits_only, FormEvent::Left).text == e.text
            &&& edit(e, limit, digits_only, FormEvent::Right).text == e.text
            &&& edit(e, limit, digits_only, FormEvent::Insert).text == e.text
            &&& edit(e, limit, digits_only, FormEvent::Insert).overtype == !e.overtype
        }),
{
}

/// A whole-selected entry is replaced, not edited: the first character
/// typed (that the field accepts) becomes its whole text, and Backspace or
/// Delete empties it.
pub proof fn lemma_selected_entry_is_replaced(e: EntryView, limit: int, digits_only: bool, ch: char)
    requires
        e.selected,
    ensures
        !(digits_only && !crate::text::is_digit(ch)) ==> edit(e, limit, digits_only, FormEvent::Char(ch)).text
            == seq![ch] && edit(e, limit, digits_only, FormEvent::Char(ch)).cursor == 1,
        edit(e, limit, digits_only, FormEvent::Backspace).text.len() == 0,
        edit(e, limit, digits_only, FormEvent::Delete).text.len() == 0,
        edit(e, limit, digits_only, FormEvent::Backspace).cursor == 0,
{
}

/// `only` is the sole changed field below `k`, `only < k`: the restore
/// actions collected below `k` are exactly its captured ones.
proof fn lemma_restore_one_field<A>(originals: Seq<Seq<A>>, dirty: Seq<bool>, only: int, k: int)
    requires
        0 <= only < k <= dirty.len(),
        only < originals.len(),
        dirty[only],
        forall|j: int| 0 <= j < dirty.len() && j != only ==> !#[trigger] dirty[j],
    ensures
        restore_upto(originals, dirty, k) == originals[only],
    decreases k,
{
    if k - 1 == only {
        lemma_clean_below(originals, dirty, only, only);
        assert(restore_upto(originals, dirty, k) =~= originals[only]);
    } else {
        lemma_restore_one_field(originals, dirty, only, k - 1);
        assert(restore_upto(originals, dirty, k) =~= restore_upto(originals, dirty, k - 1));
    }
}

/// No field below `k` (`k <= only`) is changed, so nothing below it restores.
proof fn lemma_clean_below<A>(originals: Seq<Seq<A>>, dirty: Seq<bool>, only: int, k: int)
    requires
        0 <= k <= only < dirty.len(),
        forall|j: int| 0 <= j < dirty.len() && j != only ==> !#[trigger] dirty[j],
    ensures
        restore_upto(originals, dirty, k) == Seq::<A>::empty(),
    decreases k,
{
    if k > 0 {
        lemma_clean_below(originals, dirty, only, k - 1);
        assert(restore_upto(originals, dirty, k) =~= Seq::<A>::empty());
    }
}

/// What Cancel restores for a single changed field is that field's opening
/// restore actions exactly as captured, in their own order; for two changed
/// fields it is the lower one's followed by the higher one's.
pub proof fn lemma_cancel_keeps_each_fields_order<A: Clone>(f: FormState<A>, i: int, k: int)
    requires
        0 <= i < k < f.dirty_of().len(),
        k < f.originals_of().len(),
        f.dirty_of()[i],
    ensures
        (forall|j: int| 0 <= j < f.dirty_of().len() && j != i ==> !#[trigger] f.dirty_of()[j])
            ==> f.cancel_spec() == f.originals_of()[i],
        f.dirty_of()[k] && (forall|j: int|
            0 <= j < f.dirty_of().len() && j != i && j != k ==> !#[trigger] f.dirty_of()[j])
            ==> f.cancel_spec() == f.originals_of()[i] + f.originals_of()[k],
{
    let o = f.originals_of();
    let d = f.dirty_of();
    let n = d.len() as int;
    if forall|j: int| 0 <= j < n && j != i ==> !#[trigger] d[j] {
        lemma_restore_one_field(o, d, i, n);
    }
    if d[k] && (forall|j: int| 0 <= j < n && j != i && j != k ==> !#[trigger] d[j]) {
        // Below `k` only `i` is changed; `k` adds its own; above `k` nothing.
        let below = d.update(k, false);
        assert forall|j: int| 0 <= j < n && j != i implies !#[trigger] below[j] by {}
        lemma_restore_one_field(o, below, i, k);
        lemma_restore_prefix_agrees(o, d, below, k);
        lemma_restore_tail_clean(o, d, k + 1, n);
    }
}

/// Two dirty vectors that agree below `k` collect the same actions below it.
proof fn lemma_restore_prefix_agrees<A>(originals: Seq<Seq<A>>, d1: Seq<bool>, d2: Seq<bool>, k: int)
    requires
        0 <= k <= d1.len(),
        d1.len() == d2.len(),
        forall|j: int| 0 <= j < k ==> d1[j] == d2[j],
    ensures
        restore_upto(originals, d1, k) == restore_upto(originals, d2, k),
    decreases k,
{
    if k > 0 {
        lemma_restore_prefix_agrees(originals, d1, d2, k - 1);
    }
}

/// Past the last changed field, collecting further adds nothing.
proof fn lemma_restore_tail_clean<A>(originals: Seq<Seq<A>>, d: Seq<bool>, from: int, k: int)
    requires
        0 < from <= k <= d.len(),
        forall|j: int| from <= j < d.len() ==> !#[trigger] d[j],
    ensures
        restore_upto(originals, d, k) == restore_upto(originals, d, from),
    decreases k - from,
{
    if k > from {
        lemma_restore_tail_clean(originals, d, from, k - 1);
        assert(restore_upto(originals, d, k) =~= restore_upto(originals, d, k - 1));
    }
}

/// Choosing a cluster item emits what the item says: Enter on a check box
/// that is on turns it off and emits its `off_action` (nothing if it has
/// none); on one that is off, turns it on and emits its `on_action`; on a
/// radio item, turns it on and emits its `on_action`.
pub proof fn lemma_choosing_emits_the_items_action<A: Clone>(
    pre: FormState<A>,
    post: FormState<A>,
    out: FormOutcome<A>,
)
    requires
        pre.handled(post, FormEvent::Enter, out),
        pre.popup_of() is None,
        pre.focus_of() < pre.fields_of().len(),
        pre.fields_of()[pre.focus_of() as int].kind matches FieldKind::Cluster { items, cursor, .. }
            && cursor < items@.len(),
    ensures
        match (pre.fields_of()[pre.focus_of() as int].kind, post.fields_of()[pre.focus_of() as int].kind) {
            (FieldKind::Cluster { style, items, cursor }, FieldKind::Cluster { items: after, .. }) => {
                let it = items@[cursor as int];
                &&& !out.close
                &&& style == ClusterStyle::Check && it.on ==> !after@[cursor as int].on && match it.off_action {
                    Some(a) => out.actions@.len() == 1 && cloned(a, out.actions@[0]),
                    None => out.actions@.len() == 0,
                }
                &&& (style == ClusterStyle::Radio || !it.on) ==> after@[cursor as int].on
                    && out.actions@.len() == 1 && cloned(it.on_action, out.actions@[0])
            },
            _ => false,
        },
{
}

/// Committing a number that parses stores the typed value when it lies in
/// `min..=max`, the nearer bound otherwise, and normalises the buffer to
/// that value's decimal digits with the caret after them; the value's
/// action is emitted exactly when the stored value changed.
pub proof fn lemma_number_commit_stores_the_nearest_value<A: Clone>(
    pre: FormState<A>,
    post: FormState<A>,
    out: FormOutcome<A>,
    typed: u32,
)
    requires
        pre.handled(post, FormEvent::Enter, out),
        pre.popup_of() is None,
        pre.focus_of() < pre.fields_of().len(),
        pre.fields_of()[pre.focus_of() as int].kind matches FieldKind::Number { buffer, min, max, .. }
            && parse_u32(buffer@) == Some(typed) && min <= max,
    ensures
        match (pre.fields_of()[pre.focus_of() as int].kind, post.fields_of()[pre.focus_of() as int].kind) {
            (
                FieldKind::Number { value: before, min, max, commit, .. },
                FieldKind::Number { value, buffer, cursor, selected, .. },
            ) => {
                &&& typed < min ==> value == min
                &&& typed > max ==> value == max
                &&& min <= typed <= max ==> value == typed
                &&& buffer@ == decimal(value as nat)
                &&& cursor == buffer@.len()
                &&& !selected
                &&& !out.close
                &&& value == before ==> out.actions@.len() == 0
                &&& value != before ==> out.actions@ == seq![commit.action_for(value)]
            },
            _ => false,
        },
{
}

/// Enter on a toggle flips it and emits the action for the state it is
/// now in: `on_action` when it turned on, `off_action` when it turned off.
pub proof fn lemma_toggle_flips_and_reports<A: Clone>(pre: FormState<A>, post: FormState<A>, out: FormOutcome<A>)
    requires
        pre.handled(post, FormEvent::Enter, out),
        pre.popup_of() is None,
        pre.focus_of() < pre.fields_of().len(),
        pre.fields_of()[pre.focus_of() as int].kind is Toggle,
    ensures
        match (pre.fields_of()[pre.focus_of() as int].kind, post.fields_of()[pre.focus_of() as int].kind) {
            (FieldKind::Toggle { on, on_action, off_action }, FieldKind::Toggle { on: now, .. }) => {
                &&& now == !on
                &&& out.actions@.len() == 1
                &&& now ==> cloned(on_action, out.actions@[0])
                &&& !now ==> cloned(off_action, out.actions@[0])
                &&& !out.close
            },
            _ => false,
        },
{
}

/// In an open popup over `count` options, Down then Up brings the highlight
/// back where it was; Up from the first option goes to the last, and Down
/// from the last goes to the first. The list itself is not touched.
pub proof fn lemma_popup_highlight_steps_and_wraps<A: Clone>(
    pre: FormState<A>,
    mid: FormState<A>,
    post: FormState<A>,
    o1: FormOutcome<A>,
    o2: FormOutcome<A>,
)
    requires
        pre.popup_of() is Some,
        pre.popup_count() > 0,
        pre.popup_of()->0.highlight < pre.popup_count(),
        pre.popup_count() <= usize::MAX,
        pre.handled(mid, FormEvent::Down, o1),
        mid.handled(post, FormEvent::Up, o2),
    ensures
        post.popup_of() == pre.popup_of(),
        post.fields_of() == pre.fields_of(),
        mid.popup_of() is Some,
        pre.popup_of()->0.highlight + 1 == pre.popup_count() ==> mid.popup_of()->0.highlight == 0,
        pre.popup_of()->0.highlight + 1 < pre.popup_count() ==> mid.popup_of()->0.highlight
            == pre.popup_of()->0.highlight + 1,
        mid.popup_of()->0.highlight == 0 ==> post.popup_of()->0.highlight + 1 == pre.popup_count(),
{
    let n = pre.popup_count();
    let h = pre.popup_of()->0.highlight as int;
    assert(mid.popup_count() == n);
    let m = (h + 1) % n;
    assert(mid.popup_of() == Some(Popup { field: pre.popup_of()->0.field, highlight: m as usize }));
    assert(post.popup_of() == Some(
        Popup { field: pre.popup_of()->0.field, highlight: ((m as usize + n - 1) % n) as usize },
    ));
    if h + 1 < n {
        lemma_small_mod((h + 1) as nat, n as nat);
    } else {
        lemma_mod_self_0(n);
    }
    assert(0 <= m < n);
    if m == 0 {
        lemma_small_mod((n - 1) as nat, n as nat);
    } else {
        lemma_small_mod((m - 1) as nat, n as nat);
        assert(m + n - 1 == (m - 1) + n);
        lemma_mod_add_multiples_vanish(m - 1, n);
    }
    assert((m + n - 1) % n == h);
    assert(0 <= m < n);
    assert(h + 1 < n ==> m == h + 1);
    assert(h + 1 == n ==> m == 0);
    let p = pre.popup_of()->0;
    assert(pre.popup_of() == Some(Popup { field: p.field, highlight: p.highlight }));
    assert(((m as usize + n - 1) % n) as usize == p.highlight);
}

/// No field fewer than `m` steps of `d` from `i` (but at least one) can take
/// focus.
pub open spec fn clear_run<A>(fs: Seq<Field<A>>, i: int, d: int, m: int) -> bool {
    forall|s: int| 1 <= s < m ==> !#[trigger] focusable_at(fs, (i + d * s) % (fs.len() as int))
}

/// `s` steps of `d` from `i` land where `s - 1` steps land from the field
/// one step on.
proof fn lemma_step_shift(i: int, d: int, s: int, n: int)
    requires
        n > 0,
        s >= 1,
    ensures
        (i + d * s) % n == ((i + d) % n + d * (s - 1)) % n,
{
    lemma_add_mod_noop(i + d, d * (s - 1), n);
    lemma_add_mod_noop((i + d) % n, d * (s - 1), n);
    vstd::arithmetic::div_mod::lemma_mod_twice(i + d, n);
    assert(i + d + d * (s - 1) == i + d * s) by (nonlinear_arith);
}

/// What a scan finds is some `m` steps on, and every field it passed over
/// on the way cannot take focus.
proof fn lemma_scan_passes_only_unfocusable<A>(fs: Seq<Field<A>>, i: int, d: int, k: nat)
    ensures
        focus_scan(fs, i, d, k) matches Some(j) ==> exists|m: int|
            1 <= m <= k && (i + d * m) % (fs.len() as int) == j && #[trigger] clear_run(fs, i, d, m),
    decreases k,
{
    if k > 0 && fs.len() > 0 {
        let n = fs.len() as int;
        let next = (i + d) % n;
        if focusable_at(fs, next) {
            assert(1 <= 1 <= k && (i + d * 1) % n == next && clear_run(fs, i, d, 1));
        } else {
            lemma_scan_passes_only_unfocusable(fs, next, d, (k - 1) as nat);
            if let Some(j) = focus_scan(fs, i, d, k) {
                let m0 = choose|m: int|
                    1 <= m <= k - 1 && (next + d * m) % n == j && #[trigger] clear_run(fs, next, d, m);
                lemma_step_shift(i, d, m0 + 1, n);
                assert forall|s: int| 1 <= s < m0 + 1 implies !#[trigger] focusable_at(fs, (i + d * s) % n) by {
                    lemma_step_shift(i, d, s, n);
                    if s == 1 {
                        assert((i + d * 1) % n == next);
                    } else {
                        assert(!focusable_at(fs, (next + d * (s - 1)) % n));
                    }
                }
                assert(1 <= m0 + 1 <= k && (i + d * (m0 + 1)) % n == j && clear_run(fs, i, d, m0 + 1));
            }
        }
    }
}

/// Tab and Shift+Tab move focus to the nearest field that can take focus,
/// in field order (backwards for Shift+Tab), wrapping round the form: the
/// target is `m` steps on for some `m` up to the number of fields, and no
/// field fewer steps on can take focus.
pub proof fn lemma_tab_skips_only_unfocusable_fields<A>(fs: Seq<Field<A>>, f: int, forward: bool)
    requires
        exists|j: int| focusable_at(fs, j),
    ensures
        exists|m: int|
            1 <= m <= fs.len() && (f + delta(forward) * m) % (fs.len() as int) == tab_step(
                fs,
                f,
                delta(forward),
            ) && #[trigger] clear_run(fs, f, delta(forward), m),
{
    let n = fs.len() as int;
    let d = delta(forward);
    let j = choose|j: int| focusable_at(fs, j);
    let m = if forward {
        (j - f) % n
    } else {
        (f - j) % n
    };
    let steps = if m == 0 {
        n
    } else {
        m
    };
    lemma_mod_bound(j - f, n);
    lemma_mod_bound(f - j, n);
    lemma_steps_reach(f, j, n, forward, m);
    lemma_scan_reaches(fs, f, d, n as nat, steps, j);
    lemma_scan_passes_only_unfocusable(fs, f, d, n as nat);
}

/// Typing never grows an entry past its limit, and every key leaves the
/// caret within the text. (A limit of zero is the exception: typing over a
/// whole-selected value always leaves the one character typed.)
pub proof fn lemma_edit_keeps_limits(e: EntryView, limit: int, digits_only: bool, ev: FormEvent)
    requires
        0 <= e.cursor <= e.text.len(),
        e.text.len() <= limit,
        limit >= 1,
    ensures
        edit(e, limit, digits_only, ev).text.len() <= limit,
        0 <= edit(e, limit, digits_only, ev).cursor <= edit(e, limit, digits_only, ev).text.len(),
{
}

} // verus!
