//! The line in which messages and commands are written.
use crate::text;
use crate::ui::cursor;
use vstd::prelude::*;
use vstd::string::StrSliceExecFns;

verus! {

/// What a text can be completed to.
#[derive(Clone, Debug, PartialEq, Eq)]
pub struct Completion {
    pub value: String,
}

#[derive(Clone, Debug, PartialEq, Eq)]
pub struct EditorState {
    pub text: String,
    /// How many bytes stand before the cursor.
    pub cursor: usize,
}

impl View for EditorState {
    type V = cursor::Place;

    open spec fn view(&self) -> cursor::Place {
        cursor::place(self.text@, self.cursor as int)
    }
}

impl Default for EditorState {
    fn default() -> (r: Self)
        ensures
            r.wf(),
            r.text@.len() == 0,
            r.cursor == 0,
    {
        let r = EditorState { text: String::new(), cursor: 0 };
        proof {
            assert(r.text@.take(0) =~= Seq::empty());
            cursor::lemma_position(r.text@, 0);
        }
        r
    }
}

/// What stands behind the slash of a command that is being written.
pub open spec fn prefix_of(s: Seq<char>) -> Option<Seq<char>> {
    if s.len() > 0 && s[0] == '/' && !text::has_blank(s.skip(1)) {
        Some(s.skip(1))
    } else {
        None
    }
}

impl EditorState {
    /// Whether the cursor stands between two characters.
    pub open spec fn wf(&self) -> bool {
        cursor::on_boundary(self.text@, self.cursor as int)
    }

    /// Types a text.
    pub fn insert(&mut self, text: &str)
        requires
            old(self).wf(),
        ensures
            final(self).wf(),
            final(self)@ == cursor::typed(old(self)@, text@),
    {
        let (text, cursor) = cursor::type_text(self.text.as_str(), self.cursor, text);
        self.text = text;
        self.cursor = cursor;
    }

    /// Erases the character before the cursor.
    pub fn backspace(&mut self)
        requires
            old(self).wf(),
        ensures
            final(self).wf(),
            final(self)@ == cursor::erased_before(old(self)@),
    {
        let (text, cursor) = cursor::erase_before(self.text.as_str(), self.cursor);
        self.text = text;
        self.cursor = cursor;
    }

    pub fn move_left(&mut self)
        requires
            old(self).wf(),
        ensures
            final(self).wf(),
            final(self)@.text == old(self)@.text,
            final(self)@.at == cursor::moved_left(old(self)@),
    {
        self.cursor = cursor::left(self.text.as_str(), self.cursor);
    }

    pub fn move_right(&mut self)
        requires
            old(self).wf(),
        ensures
            final(self).wf(),
            final(self)@.text == old(self)@.text,
            final(self)@.at == cursor::moved_right(old(self)@),
    {
        self.cursor = cursor::right(self.text.as_str(), self.cursor);
    }

    /// Takes out what was written.
    pub fn take(&mut self) -> (r: String)
        ensures
            r@ == old(self).text@,
            final(self).wf(),
            final(self).text@.len() == 0,
            final(self).cursor == 0,
    {
        let taken = text::owned(self.text.as_str());
        *self = EditorState::default();
        taken
    }

    /// What stands behind the slash of a command that is being written.
    pub fn command_prefix(&self) -> (r: Option<&str>)
        ensures
            match r {
                Some(p) => prefix_of(self.text@) == Some(p@),
                None => prefix_of(self.text@) is None,
            },
    {
        let s = self.text.as_str();
        let n: usize = s.unicode_len();
        if n == 0 || s.get_char(0) != '/' {
            return None;
        }
        let rest = s.substring_char(1, n);
        proof {
            assert(rest@ =~= self.text@.skip(1));
        }
        if text::any_blank(rest) {
            return None;
        }
        Some(rest)
    }

    /// Completes the command that is being written, up to the cursor.
    pub fn apply_completion(&mut self, completion: &Completion)
        requires
            prefix_of(old(self).text@) is Some ==> old(self).wf() && old(self).cursor >= 1,
        ensures
            match prefix_of(old(self).text@) {
                Some(p) => {
                    &&& final(self).wf()
                    &&& final(self)@.text == seq!['/'] + completion.value@ + old(self)@.text.skip(
                        old(self)@.at,
                    )
                    &&& final(self)@.at == 1 + completion.value@.len()
                },
                None => *final(self) == *old(self),
            },
    {
        if self.command_prefix().is_none() {
            return;
        }
        let k: usize = cursor::position_of(self.text.as_str(), self.cursor);
        let n: usize = self.text.as_str().unicode_len();
        let ghost before = self.text@;
        proof {
            if k == 0 {
                assert(before.take(0) =~= Seq::empty());
                assert(text::utf8_len(before.take(k as int)) == self.cursor);
            }
        }
        let rest = self.text.as_str().substring_char(k, n);
        let head = text::cat2("/", completion.value.as_str());
        let whole = text::cat2(head.as_str(), rest);
        let cursor: usize = text::byte_len(head.as_str());
        proof {
            reveal_strlit("/");
            assert("/"@ =~= seq!['/']);
            assert(rest@ =~= before.skip(k as int));
            assert(whole@ =~= seq!['/'] + completion.value@ + before.skip(k as int));
            assert(whole@.take(completion.value@.len() as int + 1) =~= head@);
            cursor::lemma_position(whole@, completion.value@.len() as int + 1);
        }
        self.text = whole;
        self.cursor = cursor;
    }
}

/// A command that is being written begins with a slash and holds no blank; what stands
/// behind the slash is completed.
pub proof fn law_commands_begin_with_a_slash(name: Seq<char>, other: Seq<char>, i: int)
    ensures
        (forall|k: int| 0 <= k < name.len() ==> !text::is_whitespace(#[trigger] name[k]))
            ==> prefix_of(seq!['/'] + name) == Some(name),
        0 <= i < name.len() && text::is_whitespace(name[i]) ==> prefix_of(seq!['/'] + name)
            is None,
        other.len() == 0 || other[0] != '/' ==> prefix_of(other) is None,
{
    let s = seq!['/'] + name;
    assert(s.skip(1) =~= name);
    if 0 <= i < name.len() && text::is_whitespace(name[i]) {
        assert(text::has_blank(name));
    }
}

} // verus!
