//! Single-line text fields edited from the keyboard: the Run filter, the
//! Metric picker filter and the analysis view rename box.

use vstd::prelude::*;
use vstd::utf8::encode_utf8;

use crate::cursor::{char_offset, is_boundary, lemma_offset_bounded, next_text_cursor, previous_text_cursor};
use crate::ids::{lemma_encode_concat, string_from_chars};
use crate::text::chars_of;

verus! {

/// What a text field holds: its characters, the caret as a character index,
/// and whether the whole text is selected.
pub struct TextFieldView {
    pub text: Seq<char>,
    pub caret: nat,
    pub select_all: bool,
}

/// An editable line of text with a caret kept at a character boundary.
#[derive(Debug)]
pub struct TextField {
    text: String,
    cursor: usize,
    caret: usize,
    select_all: bool,
}

impl View for TextField {
    type V = TextFieldView;

    closed spec fn view(&self) -> TextFieldView {
        TextFieldView { text: self.text@, caret: self.caret as nat, select_all: self.select_all }
    }
}

impl TextField {
    #[verifier::type_invariant]
    closed spec fn caret_at_boundary(self) -> bool {
        &&& self.caret <= self.text@.len()
        &&& self.cursor == char_offset(self.text@, self.caret as int)
    }

    /// An empty field with nothing selected.
    pub fn new() -> (field: Self)
        ensures
            field@ == (TextFieldView { text: Seq::empty(), caret: 0, select_all: false }),
    {
        let text = String::new();
        proof {
            lemma_start_offset(text@);
        }
        TextField { text, cursor: 0, caret: 0, select_all: false }
    }

    /// A field holding `text` with the caret at its end and all of it selected,
    /// as a rename box opens.
    pub fn with_text_selected(text: String) -> (field: Self)
        ensures
            field@ == (TextFieldView { text: text@, caret: text@.len(), select_all: true }),
    {
        let chars = chars_of(text.as_str());
        let caret = chars.len();
        let cursor = text.as_str().as_bytes().len();
        proof {
            assert(text@.take(caret as int) =~= text@);
        }
        TextField { text, cursor, caret, select_all: true }
    }

    /// The text.
    pub fn text(&self) -> (text: &str)
        ensures
            text@ == self@.text,
    {
        self.text.as_str()
    }

    /// The caret as a UTF-8 byte offset into the text.
    pub fn cursor(&self) -> (cursor: usize)
        ensures
            cursor == char_offset(self@.text, self@.caret as int),
            self@.caret <= self@.text.len(),
    {
        proof {
            use_type_invariant(self);
        }
        self.cursor
    }

    /// Whether the whole text is selected.
    pub fn all_selected(&self) -> (selected: bool)
        ensures
            selected == self@.select_all,
    {
        self.select_all
    }

    /// Moves the caret one character left, or to the start when all is selected.
    pub fn move_left(&mut self)
        ensures
            final(self)@ == moved_left(old(self)@),
    {
        proof {
            use_type_invariant(&*self);
            lemma_start_offset(self.text@);
        }
        let (cursor, caret) = if self.select_all {
            (0, 0)
        } else {
            assert(is_boundary(self.text@, self.cursor as int, self.caret as int));
            let previous = previous_text_cursor(self.text.as_str(), self.cursor);
            (previous, if self.caret > 0 { self.caret - 1 } else { 0 })
        };
        let text = self.text.clone();
        *self = TextField { text, cursor, caret, select_all: false };
    }

    /// Moves the caret one character right, or to the end when all is selected.
    pub fn move_right(&mut self)
        ensures
            final(self)@ == moved_right(old(self)@),
    {
        proof {
            use_type_invariant(&*self);
        }
        let count = chars_of(self.text.as_str()).len();
        let (cursor, caret) = if self.select_all {
            proof {
                assert(self.text@.take(count as int) =~= self.text@);
            }
            (self.text.as_str().as_bytes().len(), count)
        } else {
            assert(is_boundary(self.text@, self.cursor as int, self.caret as int));
            let next = next_text_cursor(self.text.as_str(), self.cursor);
            (next, if self.caret < count { self.caret + 1 } else { self.caret })
        };
        let text = self.text.clone();
        *self = TextField { text, cursor, caret, select_all: false };
    }

    /// Empties the field.
    pub fn clear(&mut self)
        ensures
            final(self)@ == cleared(),
    {
        *self = TextField::new();
    }

    /// Deletes the character before the caret, or everything when all is
    /// selected.
    pub fn delete_backward(&mut self)
        ensures
            final(self)@ == deleted_backward(old(self)@),
    {
        proof {
            use_type_invariant(&*self);
        }
        if self.select_all {
            *self = TextField::new();
            return;
        }
        if self.caret == 0 {
            let text = self.text.clone();
            *self = TextField { text, cursor: self.cursor, caret: 0, select_all: false };
            return;
        }
        assert(is_boundary(self.text@, self.cursor as int, self.caret as int));
        let previous = previous_text_cursor(self.text.as_str(), self.cursor);
        let chars = chars_of(self.text.as_str());
        let caret = self.caret - 1;
        let out = splice(&chars, caret, self.caret, &Vec::new());
        let text = string_from_chars(&out);
        proof {
            assert(text@.take(caret as int) =~= self.text@.take(caret as int));
        }
        *self = TextField { text, cursor: previous, caret, select_all: false };
    }

    /// Inserts `typed` at the caret, replacing everything when all is
    /// selected, and moves the caret past it.
    pub fn insert(&mut self, typed: &str)
        ensures
            final(self)@ == inserted(old(self)@, typed@),
    {
        proof {
            use_type_invariant(&*self);
            lemma_start_offset(self.text@);
        }
        let (chars, caret, cursor) = if self.select_all {
            (Vec::new(), 0, 0)
        } else {
            (chars_of(self.text.as_str()), self.caret, self.cursor)
        };
        proof {
            lemma_start_offset(chars@);
        }
        let added = chars_of(typed);
        let out = splice(&chars, caret, caret, &added);
        let text = string_from_chars(&out);
        let total = text.as_str().as_bytes().len();
        let out_len = out.len();
        assert(out_len == caret + added@.len() + (chars@.len() - caret));
        let new_caret = caret + added.len();
        proof {
            assert(text@.take(new_caret as int) =~= chars@.take(caret as int) + typed@);
            lemma_encode_concat(chars@.take(caret as int), typed@);
            lemma_offset_bounded(text@, new_caret as int);
        }
        let new_cursor = cursor + typed.as_bytes().len();
        *self = TextField { text, cursor: new_cursor, caret: new_caret, select_all: false };
    }
}

proof fn lemma_start_offset(s: Seq<char>)
    ensures
        char_offset(s, 0) == 0,
{
    assert(s.take(0) =~= Seq::<char>::empty());
    assert(encode_utf8(Seq::<char>::empty()) =~= Seq::<u8>::empty());
}

/// The field after a move left.
pub open spec fn moved_left(v: TextFieldView) -> TextFieldView {
    TextFieldView {
        text: v.text,
        caret: if v.select_all || v.caret == 0 { 0 } else { (v.caret - 1) as nat },
        select_all: false,
    }
}

/// The field after a move right.
pub open spec fn moved_right(v: TextFieldView) -> TextFieldView {
    TextFieldView {
        text: v.text,
        caret: if v.select_all { v.text.len() } else if v.caret < v.text.len() { v.caret + 1 } else { v.caret },
        select_all: false,
    }
}

/// An empty field.
pub open spec fn cleared() -> TextFieldView {
    TextFieldView { text: Seq::empty(), caret: 0, select_all: false }
}

/// The field after a backspace.
pub open spec fn deleted_backward(v: TextFieldView) -> TextFieldView {
    if v.select_all {
        cleared()
    } else if v.caret == 0 {
        TextFieldView { text: v.text, caret: 0, select_all: false }
    } else {
        TextFieldView {
            text: v.text.take(v.caret - 1) + v.text.skip(v.caret as int),
            caret: (v.caret - 1) as nat,
            select_all: false,
        }
    }
}

/// The field after typing `typed`.
pub open spec fn inserted(v: TextFieldView, typed: Seq<char>) -> TextFieldView {
    let base = if v.select_all { cleared() } else { v };
    TextFieldView {
        text: base.text.take(base.caret as int) + typed + base.text.skip(base.caret as int),
        caret: base.caret + typed.len(),
        select_all: false,
    }
}

/// `chars` with the characters from `from` up to `to` replaced by `middle`.
fn splice(chars: &Vec<char>, from: usize, to: usize, middle: &Vec<char>) -> (out: Vec<char>)
    requires
        from <= to <= chars@.len(),
    ensures
        out@ == chars@.take(from as int) + middle@ + chars@.skip(to as int),
{
    let mut out: Vec<char> = Vec::new();
    let mut i: usize = 0;
    while i < from
        invariant
            i <= from <= to <= chars@.len(),
            out@ == chars@.take(i as int),
        decreases from - i,
    {
        out.push(chars[i]);
        proof {
            assert(chars@.take(i + 1) =~= chars@.take(i as int).push(chars@[i as int]));
        }
        i = i + 1;
    }
    let mut j: usize = 0;
    while j < middle.len()
        invariant
            from <= to <= chars@.len(),
            j <= middle@.len(),
            out@ == chars@.take(from as int) + middle@.take(j as int),
        decreases middle@.len() - j,
    {
        out.push(middle[j]);
        proof {
            assert(middle@.take(j + 1) =~= middle@.take(j as int).push(middle@[j as int]));
        }
        j = j + 1;
    }
    proof {
        assert(middle@.take(j as int) =~= middle@);
    }
    let mut k: usize = to;
    while k < chars.len()
        invariant
            from <= to <= k <= chars@.len(),
            out@ == chars@.take(from as int) + middle@ + chars@.subrange(to as int, k as int),
        decreases chars@.len() - k,
    {
        out.push(chars[k]);
        proof {
            assert(chars@.subrange(to as int, k + 1) =~= chars@.subrange(to as int, k as int).push(chars@[k as int]));
        }
        k = k + 1;
    }
    proof {
        assert(chars@.subrange(to as int, k as int) =~= chars@.skip(to as int));
    }
    out
}

/// Whether `c` is a control character: Unicode general category Cc, the
/// code points U+0000 to U+001F and U+007F to U+009F.
pub open spec fn is_control(c: char) -> bool {
    c <= '\u{1f}' || ('\u{7f}' <= c && c <= '\u{9f}')
}

/// Whether typed text holds no control character.
pub open spec fn printable(typed: Seq<char>) -> bool {
    forall|i: int| 0 <= i < typed.len() ==> !is_control(#[trigger] typed[i])
}

/// Whether `typed` holds no control character.
pub fn is_printable(typed: &str) -> (ok: bool)
    ensures
        ok == printable(typed@),
{
    let chars = chars_of(typed);
    let mut i: usize = 0;
    while i < chars.len()
        invariant
            chars@ == typed@,
            i <= chars@.len(),
            forall|j: int| 0 <= j < i ==> !is_control(#[trigger] typed@[j]),
        decreases chars@.len() - i,
    {
        let c = chars[i];
        if c <= '\u{1f}' || ('\u{7f}' <= c && c <= '\u{9f}') {
            return false;
        }
        i = i + 1;
    }
    true
}

/// Whether two strings hold the same characters.
pub fn same_text(a: &str, b: &str) -> (same: bool)
    ensures
        same == (a@ == b@),
{
    let x = chars_of(a);
    let y = chars_of(b);
    if x.len() != y.len() {
        return false;
    }
    let mut i: usize = 0;
    while i < x.len()
        invariant
            x@ == a@,
            y@ == b@,
            x@.len() == y@.len(),
            i <= x@.len(),
            forall|j: int| 0 <= j < i ==> x@[j] == y@[j],
        decreases x@.len() - i,
    {
        if x[i] != y[i] {
            return false;
        }
        i = i + 1;
    }
    proof {
        assert(x@ =~= y@);
    }
    true
}

/// The text typed by a key that is no shortcut, if it is printable.
pub open spec fn typed_text(key_char: Option<Seq<char>>) -> Option<Seq<char>> {
    match key_char {
        Some(t) => if printable(t) { Some(t) } else { None },
        None => None,
    }
}

/// What a key press does to the Run filter: whether it is handled, and the
/// field after it.
pub open spec fn run_filter_after(
    v: TextFieldView,
    key: Seq<char>,
    key_char: Option<Seq<char>>,
    platform: bool,
    control: bool,
) -> (bool, TextFieldView) {
    if key == "left"@ {
        (true, moved_left(v))
    } else if key == "right"@ {
        (true, moved_right(v))
    } else if key == "backspace"@ {
        (true, deleted_backward(v))
    } else if key == "escape"@ {
        (true, cleared())
    } else if !platform && !control {
        (true, match typed_text(key_char) {
            Some(t) => inserted(v, t),
            None => v,
        })
    } else {
        (false, v)
    }
}

fn typed_view(key_char: Option<&str>) -> (typed: Option<&str>)
    ensures
        typed_text(match key_char { Some(t) => Some(t@), None => None }) == match typed {
            Some(t) => Some(t@),
            None => None::<Seq<char>>,
        },
{
    match key_char {
        Some(t) => if is_printable(t) { Some(t) } else { None },
        None => None,
    }
}

/// Applies a key press to the Run filter. `key` names the key, `key_char`
/// is the text it types, and `platform` and `control` tell whether those
/// modifiers were held. Returns whether the key was handled.
pub fn run_filter_key(
    field: &mut TextField,
    key: &str,
    key_char: Option<&str>,
    platform: bool,
    control: bool,
) -> (handled: bool)
    ensures
        (handled, final(field)@) == run_filter_after(
            old(field)@,
            key@,
            match key_char { Some(t) => Some(t@), None => None },
            platform,
            control,
        ),
{
    if same_text(key, "left") {
        field.move_left();
        true
    } else if same_text(key, "right") {
        field.move_right();
        true
    } else if same_text(key, "backspace") {
        field.delete_backward();
        true
    } else if same_text(key, "escape") {
        field.clear();
        true
    } else if !platform && !control {
        if let Some(t) = typed_view(key_char) {
            field.insert(t);
        }
        true
    } else {
        false
    }
}

/// What a key press in the rename box asks of the viewer.
#[derive(Clone, Copy, Debug, PartialEq, Eq, Structural)]
pub enum RenameKey {
    /// Not a key of the rename box; it propagates.
    Ignored,
    /// Consumed without changing the draft.
    Handled,
    /// The draft or its caret changed.
    Edited,
    /// Enter: keep the draft as the view's new name.
    Commit,
    /// Escape: drop the draft.
    Cancel,
}

/// What a key press does to the rename box: the outcome, and the draft after it.
pub open spec fn rename_after(
    v: TextFieldView,
    key: Seq<char>,
    key_char: Option<Seq<char>>,
    platform: bool,
    control: bool,
) -> (RenameKey, TextFieldView) {
    if key == "enter"@ {
        (RenameKey::Commit, v)
    } else if key == "escape"@ {
        (RenameKey::Cancel, v)
    } else if key == "left"@ {
        (RenameKey::Edited, moved_left(v))
    } else if key == "right"@ {
        (RenameKey::Edited, moved_right(v))
    } else if key == "backspace"@ {
        (RenameKey::Edited, deleted_backward(v))
    } else if !platform && !control {
        match typed_text(key_char) {
            Some(t) => (RenameKey::Edited, inserted(v, t)),
            None => (RenameKey::Handled, v),
        }
    } else {
        (RenameKey::Ignored, v)
    }
}

/// Applies a key press to the rename box of an analysis view.
pub fn rename_key(
    field: &mut TextField,
    key: &str,
    key_char: Option<&str>,
    platform: bool,
    control: bool,
) -> (outcome: RenameKey)
    ensures
        (outcome, final(field)@) == rename_after(
            old(field)@,
            key@,
            match key_char { Some(t) => Some(t@), None => None },
            platform,
            control,
        ),
{
    if same_text(key, "enter") {
        RenameKey::Commit
    } else if same_text(key, "escape") {
        RenameKey::Cancel
    } else if same_text(key, "left") {
        field.move_left();
        RenameKey::Edited
    } else if same_text(key, "right") {
        field.move_right();
        RenameKey::Edited
    } else if same_text(key, "backspace") {
        field.delete_backward();
        RenameKey::Edited
    } else if !platform && !control {
        match typed_view(key_char) {
            Some(t) => {
                field.insert(t);
                RenameKey::Edited
            },
            None => RenameKey::Handled,
        }
    } else {
        RenameKey::Ignored
    }
}

/// What a key press in the Metric picker's filter asks of the viewer.
#[derive(Clone, Copy, Debug, PartialEq, Eq, Structural)]
pub enum MetricFilterKey {
    /// Not a key of the filter; it propagates.
    Ignored,
    /// Consumed; the filter may have changed.
    Handled,
    /// Escape on an empty filter: close the picker.
    ClosePicker,
}

/// What a key press does to the Metric filter: the outcome, and the filter after it.
pub open spec fn metric_filter_after(
    filter: Seq<char>,
    key: Seq<char>,
    key_char: Option<Seq<char>>,
    platform: bool,
    control: bool,
) -> (MetricFilterKey, Seq<char>) {
    if key == "backspace"@ {
        (MetricFilterKey::Handled, if filter.len() > 0 { filter.drop_last() } else { filter })
    } else if key == "escape"@ {
        if filter.len() == 0 {
            (MetricFilterKey::ClosePicker, filter)
        } else {
            (MetricFilterKey::Handled, Seq::empty())
        }
    } else if !platform && !control {
        (MetricFilterKey::Handled, match typed_text(key_char) {
            Some(t) => filter + t,
            None => filter,
        })
    } else {
        (MetricFilterKey::Ignored, filter)
    }
}

/// Applies a key press to the Metric picker's filter, which is only ever
/// edited at its end.
pub fn metric_filter_key(
    filter: &mut String,
    key: &str,
    key_char: Option<&str>,
    platform: bool,
    control: bool,
) -> (outcome: MetricFilterKey)
    ensures
        (outcome, final(filter)@) == metric_filter_after(
            old(filter)@,
            key@,
            match key_char { Some(t) => Some(t@), None => None },
            platform,
            control,
        ),
{
    if same_text(key, "backspace") {
        let chars = chars_of(filter.as_str());
        if chars.len() > 0 {
            let kept = splice(&chars, chars.len() - 1, chars.len(), &Vec::new());
            proof {
                assert(kept@ =~= filter@.drop_last());
            }
            *filter = string_from_chars(&kept);
        }
        MetricFilterKey::Handled
    } else if same_text(key, "escape") {
        if filter.as_str().as_bytes().len() == 0 {
            proof {
                if filter@.len() > 0 {
                    crate::ids::lemma_encode_nonempty(filter@);
                }
            }
            MetricFilterKey::ClosePicker
        } else {
            proof {
                if filter@.len() == 0 {
                    assert(filter@ =~= Seq::<char>::empty());
                    assert(encode_utf8(Seq::<char>::empty()) =~= Seq::<u8>::empty());
                }
            }
            *filter = String::new();
            MetricFilterKey::Handled
        }
    } else if !platform && !control {
        if let Some(t) = typed_view(key_char) {
            let chars = chars_of(filter.as_str());
            let added = chars_of(t);
            let joined = splice(&chars, chars.len(), chars.len(), &added);
            proof {
                assert(joined@ =~= filter@ + t@);
            }
            *filter = string_from_chars(&joined);
        }
        MetricFilterKey::Handled
    } else {
        MetricFilterKey::Ignored
    }
}

/// Typing one character and then pressing backspace leaves an unselected
/// field as it was.
pub proof fn backspace_undoes_one_typed_character(v: TextFieldView, c: char)
    requires
        !v.select_all,
        v.caret <= v.text.len(),
    ensures
        deleted_backward(inserted(v, seq![c])) == v,
{
    let after = inserted(v, seq![c]);
    let k = v.caret as int;
    assert(after.text.take(k) =~= v.text.take(k));
    assert(after.text.skip(k + 1) =~= v.text.skip(k));
    assert(v.text.take(k) + v.text.skip(k) =~= v.text);
}

/// Arrow keys move the caret by at most one character, never past either
/// end, and only in their own direction: a right move never goes back (at
/// the end it stays), a left move never goes forward (at the start it
/// stays); with all selected they go to the end or the start. Neither
/// changes the text, and both clear the selection.
pub proof fn arrows_move_one_character_their_way(v: TextFieldView)
    requires
        v.caret <= v.text.len(),
    ensures
        moved_right(v).text == v.text,
        moved_left(v).text == v.text,
        !moved_right(v).select_all && !moved_left(v).select_all,
        moved_right(v).caret <= v.text.len(),
        !v.select_all ==> v.caret <= moved_right(v).caret <= v.caret + 1,
        !v.select_all && v.caret == v.text.len() ==> moved_right(v).caret == v.caret,
        !v.select_all && v.caret < v.text.len() ==> moved_right(v).caret == v.caret + 1,
        !v.select_all ==> moved_left(v).caret <= v.caret && v.caret <= moved_left(v).caret + 1,
        !v.select_all && v.caret == 0 ==> moved_left(v).caret == 0,
        !v.select_all && v.caret > 0 ==> moved_left(v).caret + 1 == v.caret,
        v.select_all ==> moved_right(v).caret == v.text.len() && moved_left(v).caret == 0,
{
}

/// Left undoes right, and right undoes left, away from the ends of an
/// unselected field.
pub proof fn opposite_arrows_cancel(v: TextFieldView)
    requires
        v.caret <= v.text.len(),
        !v.select_all,
    ensures
        v.caret < v.text.len() ==> moved_left(moved_right(v)) == v,
        v.caret > 0 ==> moved_right(moved_left(v)) == v,
{
}

} // verus!
