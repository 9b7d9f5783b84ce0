//! The editable state of a single-line text input: its characters and a
//! caret between them. What fits in the box is measured by the caller; this
//! type applies the typing and the keys.
use vstd::prelude::*;
use crate::input::NamedKey;
use crate::strutil::{char_is_control, chars_of, is_control, string_of};
use crate::text_editor::buffer::{remove_chars, remove_range};

verus! {

/// Characters of `s` that can be typed into a field: all but control
/// characters.
pub open spec fn typeable(s: Seq<char>) -> Seq<char>
    decreases s.len(),
{
    if s.len() == 0 {
        Seq::<char>::empty()
    } else if is_control(s.last()) {
        typeable(s.drop_last())
    } else {
        typeable(s.drop_last()).push(s.last())
    }
}

/// The characters of typed input `s` that a field accepts (control
/// characters dropped).
pub fn typeable_chars(s: &str) -> (v: Vec<char>)
    ensures
        v@ == typeable(s@),
{
    let cs = chars_of(s);
    let mut v: Vec<char> = Vec::new();
    let mut i: usize = 0;
    while i < cs.len()
        invariant
            i <= cs@.len(),
            cs@ == s@,
            v@ == typeable(cs@.take(i as int)),
        decreases cs@.len() - i,
    {
        proof {
            assert(cs@.take(i + 1).drop_last() =~= cs@.take(i as int));
        }
        if !char_is_control(cs[i]) {
            v.push(cs[i]);
        }
        i += 1;
    }
    proof {
        assert(cs@.take(cs@.len() as int) =~= cs@);
    }
    v
}

pub struct TextField {
    text: Vec<char>,
    cursor: usize,
    anchor: Option<usize>,
}

#[verifier::ext_equal]
pub struct FieldModel {
    pub text: Seq<char>,
    pub cursor: usize,
    pub anchor: Option<usize>,
}

impl View for TextField {
    type V = FieldModel;

    closed spec fn view(&self) -> FieldModel {
        FieldModel { text: self.text@, cursor: self.cursor, anchor: self.anchor }
    }
}

impl FieldModel {
    /// The caret is between characters of the text.
    pub open spec fn wf(self) -> bool {
        self.cursor <= self.text.len()
    }

    /// `accepted` put in at the caret; the caret follows it.
    pub open spec fn inserted(self, accepted: Seq<char>) -> FieldModel {
        if accepted.len() == 0 {
            self
        } else {
            FieldModel {
                text: self.text.take(self.cursor as int) + accepted + self.text.skip(
                    self.cursor as int,
                ),
                cursor: (self.cursor + accepted.len()) as usize,
                ..self
            }
        }
    }

    /// The effect of a key: Backspace and Delete remove the character
    /// before or after the caret, the arrows, Home and End move it; other
    /// keys do nothing.
    pub open spec fn keyed(self, key: NamedKey) -> FieldModel {
        let c = self.cursor as int;
        let n = self.text.len() as int;
        match key {
            NamedKey::Backspace => if c > 0 {
                FieldModel {
                    text: remove_range(self.text, c - 1, c),
                    cursor: (c - 1) as usize,
                    ..self
                }
            } else {
                self
            },
            NamedKey::Delete => if c < n {
                FieldModel { text: remove_range(self.text, c, c + 1), ..self }
            } else {
                self
            },
            NamedKey::ArrowLeft => if c > 0 {
                FieldModel { cursor: (c - 1) as usize, ..self }
            } else {
                self
            },
            NamedKey::ArrowRight => FieldModel {
                cursor: (if c + 1 < n {
                    c + 1
                } else {
                    n
                }) as usize,
                ..self
            },
            NamedKey::Home => FieldModel { cursor: 0, ..self },
            NamedKey::End => FieldModel { cursor: n as usize, ..self },
            _ => self,
        }
    }

    /// Whether a key changes the text.
    pub open spec fn key_edits(self, key: NamedKey) -> bool {
        (key == NamedKey::Backspace && self.cursor > 0) || (key == NamedKey::Delete && self.cursor
            < self.text.len())
    }
}

impl TextField {
    /// A field showing `value`, caret at the start.
    pub fn new(value: &str) -> (f: Self)
        ensures
            f@ == (FieldModel { text: value@, cursor: 0, anchor: None }),
            f@.wf(),
    {
        TextField { text: chars_of(value), cursor: 0, anchor: None }
    }

    pub fn text(&self) -> (s: String)
        ensures
            s@ == self@.text,
    {
        string_of(&self.text)
    }

    pub fn chars(&self) -> (v: &Vec<char>)
        ensures
            v@ == self@.text,
    {
        &self.text
    }

    pub fn cursor(&self) -> (c: usize)
        ensures
            c == self@.cursor,
    {
        self.cursor
    }

    /// Focuses the field with the caret at character `idx` (where the
    /// pointer pressed) and no selection.
    pub fn focus_at(&mut self, idx: usize)
        requires
            old(self)@.wf(),
            idx <= old(self)@.text.len(),
        ensures
            final(self)@ == (FieldModel { cursor: idx, anchor: None, ..old(self)@ }),
            final(self)@.wf(),
    {
        self.cursor = idx;
        self.anchor = None;
        proof {
            assert(self@ =~= (FieldModel { cursor: idx, anchor: None, ..old(self)@ }));
        }
    }

    /// Inserts the accepted typed characters at the caret; tells whether
    /// the text changed.
    pub fn insert_typed(&mut self, accepted: &Vec<char>) -> (changed: bool)
        requires
            old(self)@.wf(),
        ensures
            final(self)@ == old(self)@.inserted(accepted@),
            final(self)@.wf(),
            changed == (accepted@.len() > 0),
    {
        if accepted.len() == 0 {
            return false;
        }
        let cur = self.cursor;
        let n = self.text.len();
        let head = crate::text_editor::buffer::slice_of(&self.text, 0, cur);
        let tail = crate::text_editor::buffer::slice_of(&self.text, cur, n);
        let ht = crate::text_editor::buffer::join_chars(&head, accepted);
        let t = crate::text_editor::buffer::join_chars(&ht, &tail);
        let total = t.len();
        assert(cur + accepted@.len() <= total);
        self.text = t;
        self.cursor = cur + accepted.len();
        proof {
            let m = old(self)@;
            assert(m.text.take(cur as int) =~= head@);
            assert(m.text.skip(cur as int) =~= tail@);
            assert(self@ =~= m.inserted(accepted@));
        }
        true
    }

    /// Applies a key; tells whether the text changed.
    pub fn apply_key(&mut self, key: NamedKey) -> (changed: bool)
        requires
            old(self)@.wf(),
        ensures
            final(self)@ == old(self)@.keyed(key),
            final(self)@.wf(),
            changed == old(self)@.key_edits(key),
    {
        let n = self.text.len();
        let c = self.cursor;
        let changed = match key {
            NamedKey::Backspace => {
                if c > 0 {
                    self.text = remove_chars(&self.text, c - 1, c);
                    self.cursor = c - 1;
                    true
                } else {
                    false
                }
            },
            NamedKey::Delete => {
                if c < n {
                    self.text = remove_chars(&self.text, c, c + 1);
                    true
                } else {
                    false
                }
            },
            NamedKey::ArrowLeft => {
                if c > 0 {
                    self.cursor = c - 1;
                }
                false
            },
            NamedKey::ArrowRight => {
                self.cursor = if c < n {
                    c + 1
                } else {
                    n
                };
                false
            },
            NamedKey::Home => {
                self.cursor = 0;
                false
            },
            NamedKey::End => {
                self.cursor = n;
                false
            },
            _ => false,
        };
        proof {
            assert(self@ =~= old(self)@.keyed(key));
        }
        changed
    }
}

/// Typing one character and pressing Backspace gives the field back.
pub proof fn law_type_then_backspace(f: FieldModel, c: char)
    requires
        f.wf(),
        f.text.len() < usize::MAX,
    ensures
        f.inserted(seq![c]).keyed(NamedKey::Backspace) == f,
{
    let g = f.inserted(seq![c]);
    let k = f.cursor as int;
    assert(g.cursor == k + 1);
    assert(remove_range(g.text, k, k + 1) =~= f.text);
    assert(g.keyed(NamedKey::Backspace) =~= f);
}

/// Every key keeps the caret between characters of the text, and only
/// Backspace and Delete touch the text.
pub proof fn law_keys_keep_field_valid(f: FieldModel, key: NamedKey)
    requires
        f.wf(),
    ensures
        f.keyed(key).wf(),
        !f.key_edits(key) ==> f.keyed(key).text == f.text,
{
}

/// Inserting puts every accepted character in, in order, at the caret:
/// the text before the caret stays, then come the accepted characters, then
/// the rest of the text; the caret ends right after them.
pub proof fn law_insert_places_all_at_caret(f: FieldModel, acc: Seq<char>)
    requires
        f.wf(),
        f.text.len() + acc.len() <= usize::MAX,
    ensures
        ({
            let g = f.inserted(acc);
            let k = f.cursor as int;
            &&& g.text.len() == f.text.len() + acc.len()
            &&& g.text.take(k) == f.text.take(k)
            &&& g.text.subrange(k, k + acc.len()) == acc
            &&& g.text.skip(k + acc.len()) == f.text.skip(k)
            &&& g.cursor == k + acc.len()
            &&& g.wf()
        }),
{
    let g = f.inserted(acc);
    let k = f.cursor as int;
    if acc.len() == 0 {
        assert(f.text.subrange(k, k) =~= acc);
    } else {
        assert(g.text.take(k) =~= f.text.take(k));
        assert(g.text.subrange(k, k + acc.len()) =~= acc);
        assert(g.text.skip(k + acc.len()) =~= f.text.skip(k));
    }
}

/// Inserting `a` and then `b` is inserting `a` followed by `b` at once.
pub proof fn law_insert_twice(f: FieldModel, a: Seq<char>, b: Seq<char>)
    requires
        f.wf(),
        f.text.len() + a.len() + b.len() <= usize::MAX,
    ensures
        f.inserted(a).inserted(b) == f.inserted(a + b),
{
    let k = f.cursor as int;
    if a.len() == 0 {
        assert(a + b =~= b);
    } else if b.len() == 0 {
        assert(a + b =~= a);
    } else {
        let g = f.inserted(a);
        assert(g.text.take(k + a.len()) =~= f.text.take(k) + a);
        assert(g.text.skip(k + a.len()) =~= f.text.skip(k));
        assert(f.inserted(a).inserted(b).text =~= f.inserted(a + b).text);
        assert(f.inserted(a).inserted(b) =~= f.inserted(a + b));
    }
}

/// What each key does to a field with the caret at `k` in a text of `n`
/// characters: Backspace removes the character before the caret and steps
/// back, Delete removes the one after it, the arrows step one character
/// within the text, Home and End go to its ends; only Backspace and Delete
/// change the text, and only when there is a character to remove.
pub proof fn law_keys_edit_at_caret(f: FieldModel)
    requires
        f.wf(),
        f.text.len() <= usize::MAX,
    ensures
        ({
            let k = f.cursor as int;
            let n = f.text.len() as int;
            let bs = f.keyed(NamedKey::Backspace);
            let del = f.keyed(NamedKey::Delete);
            &&& k > 0 ==> bs.text == f.text.remove(k - 1) && bs.cursor == k - 1
            &&& k == 0 ==> bs == f
            &&& k < n ==> del.text == f.text.remove(k) && del.cursor == k
            &&& k == n ==> del == f
            &&& f.keyed(NamedKey::ArrowLeft).text == f.text
            &&& f.keyed(NamedKey::ArrowLeft).cursor == (if k > 0 { k - 1 } else { 0 })
            &&& f.keyed(NamedKey::ArrowRight).text == f.text
            &&& f.keyed(NamedKey::ArrowRight).cursor == (if k < n { k + 1 } else { n })
            &&& f.keyed(NamedKey::Home).text == f.text && f.keyed(NamedKey::Home).cursor == 0
            &&& f.keyed(NamedKey::End).text == f.text && f.keyed(NamedKey::End).cursor == n
            &&& f.key_edits(NamedKey::Backspace) == (k > 0)
            &&& f.key_edits(NamedKey::Delete) == (k < n)
        }),
{
    let k = f.cursor as int;
    let n = f.text.len() as int;
    if k > 0 {
        assert(remove_range(f.text, k - 1, k) =~= f.text.remove(k - 1));
    }
    if k < n {
        assert(remove_range(f.text, k, k + 1) =~= f.text.remove(k));
    }
}

/// Typed input keeps exactly its characters that are not control
/// characters, in order.
pub proof fn law_typeable_drops_only_controls(s: Seq<char>)
    ensures
        forall|i: int| 0 <= i < typeable(s).len() ==> !is_control(#[trigger] typeable(s)[i]),
        typeable(s).len() <= s.len(),
        (forall|i: int| 0 <= i < s.len() ==> !is_control(#[trigger] s[i])) ==> typeable(s) == s,
        (forall|i: int| 0 <= i < s.len() ==> is_control(#[trigger] s[i])) ==> typeable(s).len()
            == 0,
    decreases s.len(),
{
    if s.len() > 0 {
        let d = s.drop_last();
        law_typeable_drops_only_controls(d);
        assert forall|i: int| 0 <= i < d.len() implies #[trigger] d[i] == s[i] by {}
        if forall|i: int| 0 <= i < s.len() ==> !is_control(#[trigger] s[i]) {
            assert(forall|i: int| 0 <= i < d.len() ==> !is_control(#[trigger] d[i]));
            assert(!is_control(s[s.len() - 1]));
            assert(typeable(s) =~= s);
        }
        if forall|i: int| 0 <= i < s.len() ==> is_control(#[trigger] s[i]) {
            assert(forall|i: int| 0 <= i < d.len() ==> is_control(#[trigger] d[i]));
            assert(is_control(s[s.len() - 1]));
        }
    }
}

} // verus!
