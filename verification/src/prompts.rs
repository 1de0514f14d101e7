//! What the user is asked and told.
use crate::controls;
use crate::session::{PendingAction, Session};
use crate::text;
use vstd::prelude::*;
use vstd::string::StringExecFns;

verus! {

/// What the user answers when there are changes that were not written.
#[derive(Clone, Copy, Debug, PartialEq, Eq, Structural)]
pub enum UnsavedAnswer {
    Discard,
    Cancel,
}

impl Session {
    /// Takes the answer about unsaved changes. What was wished is given back where it is to be done.
    pub fn answer_unsaved(&mut self, answer: UnsavedAnswer) -> (result: Option<PendingAction>)
        ensures
            result == if answer is Discard {
                old(self).pending_action
            } else {
                None
            },
            *final(self) == (Session { pending_action: None, ..*old(self) }),
    {
        let pending = self.pending_action.take();
        match answer {
            UnsavedAnswer::Discard => pending,
            UnsavedAnswer::Cancel => None,
        }
    }

    /// Takes the wish off to go along with an export that comes first.
    pub fn take_pending_action(&mut self) -> (result: Option<PendingAction>)
        ensures
            result == old(self).pending_action,
            *final(self) == (Session { pending_action: None, ..*old(self) }),
    {
        self.pending_action.take()
    }

    /// Notes that an error was read.
    pub fn dismiss_error(&mut self)
        ensures
            *final(self) == (Session { error: None, ..*old(self) }),
    {
        self.error = None;
    }

    /// Whether shortcuts count: keys do not belong to a flight or a text, and nothing is asked.
    pub fn takes_shortcuts(&self, secondary_button_down: bool, keyboard_wanted: bool) -> (result:
        bool)
        ensures
            result == (!self.fly_captured && !(self.camera.mode is Fly && secondary_button_down)
                && !keyboard_wanted && self.pending_action is None && self.error is None),
    {
        !controls::fly_shortcuts_suppressed(
            self.camera.mode(),
            self.fly_captured,
            secondary_button_down,
        ) && !keyboard_wanted && self.pending_action.is_none() && self.error.is_none()
    }

    /// The title of the window: the file, and a mark where it has changes.
    pub open spec fn title(self) -> Seq<char> {
        match self.document {
            None => "SculptLite"@,
            Some(document) => {
                let named = "SculptLite — "@ + match document.source_path.name {
                    Some(name) => name@,
                    None => "Untitled STL"@,
                };
                if document.dirty {
                    named + " *"@
                } else {
                    named
                }
            },
        }
    }

    /// Gives the title of the window where it has become another.
    pub fn retitle(&mut self) -> (result: Option<String>)
        ensures
            final(self).window_title@ == old(self).title(),
            *final(self) == (Session { window_title: final(self).window_title, ..*old(self) }),
            result is Some <==> old(self).window_title@ != old(self).title(),
            result is Some ==> result->0@ == old(self).title(),
    {
        let mut title = "SculptLite".to_owned();
        match &self.document {
            Some(document) => {
                title = "SculptLite — ".to_owned();
                match &document.source_path.name {
                    Some(name) => title.append(name.as_str()),
                    None => title.append("Untitled STL"),
                }
                if document.dirty {
                    title.append(" *");
                }
            },
            None => {},
        }
        if same_text(&title, &self.window_title) {
            return None;
        }
        let shown = title.clone();
        self.window_title = title;
        Some(shown)
    }

    pub open spec fn heading(self) -> Seq<char> {
        match self.document {
            None => "Mesh · none"@,
            Some(document) => match document.mesh {
                None => "Mesh · working…"@,
                Some(mesh) => "Mesh · "@ + text::grouped_digits(mesh.triangles@.len()) + " faces"@,
            },
        }
    }

    /// The heading of what is said about the mesh.
    pub fn mesh_heading(&self) -> (result: String)
        ensures
            result@ == self.heading(),
    {
        match &self.document {
            None => "Mesh · none".to_owned(),
            Some(document) => match &document.mesh {
                None => "Mesh · working…".to_owned(),
                Some(mesh) => {
                    let mut heading = "Mesh · ".to_owned();
                    heading.append(text::grouped(mesh.triangles.len()).as_str());
                    heading.append(" faces");
                    heading
                },
            },
        }
    }

    pub open spec fn summary(self) -> Seq<char> {
        match self.document {
            None => "Import an STL mesh to begin sculpting."@,
            Some(document) => match document.mesh {
                None => "Mesh operation in progress"@,
                Some(mesh) => text::grouped_digits(mesh.positions@.len()) + " vertices · "@
                    + text::grouped_digits(mesh.triangles@.len()) + " faces"@,
            },
        }
    }

    /// What is said about the mesh.
    pub fn mesh_summary(&self) -> (result: String)
        ensures
            result@ == self.summary(),
    {
        match &self.document {
            None => "Import an STL mesh to begin sculpting.".to_owned(),
            Some(document) => match &document.mesh {
                None => "Mesh operation in progress".to_owned(),
                Some(mesh) => {
                    let mut summary = text::grouped(mesh.positions.len());
                    summary.append(" vertices · ");
                    summary.append(text::grouped(mesh.triangles.len()).as_str());
                    summary.append(" faces");
                    summary
                },
            },
        }
    }
}

/// A letter without regard to case.
pub open spec fn small(letter: char) -> char {
    if letter == 'S' {
        's'
    } else if letter == 'T' {
        't'
    } else if letter == 'L' {
        'l'
    } else {
        letter
    }
}

/// Whether the end of a file's name is that of an STL file, in whatever case.
pub open spec fn names_stl(extension: Seq<char>) -> bool {
    &&& extension.len() == 3
    &&& small(extension[0]) == 's'
    &&& small(extension[1]) == 't'
    &&& small(extension[2]) == 'l'
}

pub fn is_stl_extension(extension: &str) -> (result: bool)
    ensures
        result == names_stl(extension@),
{
    let length = extension.unicode_len();
    if length != 3 {
        return false;
    }
    let first = extension.get_char(0);
    let second = extension.get_char(1);
    let third = extension.get_char(2);
    (first == 's' || first == 'S') && (second == 't' || second == 'T') && (third == 'l' || third
        == 'L')
}

fn same_text(a: &String, b: &String) -> (result: bool)
    ensures
        result == (a@ == b@),
{
    let first = a.as_str();
    let second = b.as_str();
    let length = first.unicode_len();
    if length != second.unicode_len() {
        return false;
    }
    let mut i: usize = 0;
    while i < length
        invariant
            i <= length,
            first@ == a@,
            second@ == b@,
            length == a@.len() == b@.len(),
            forall|k: int| 0 <= k < i ==> a@[k] == b@[k],
        decreases length - i,
    {
        if first.get_char(i) != second.get_char(i) {
            assert(a@[i as int] != b@[i as int]);
            return false;
        }
        i += 1;
    }
    assert(a@ =~= b@);
    true
}

} // verus!
