//! Keys, and the form in which an issue is entered.
use crate::issue::{fresh_issue, Issue, IssueType, IssueView, Status};
use crate::text::{chars_of, is_blank, is_blank_text, text_of, trimmed};
use crate::time::Timestamp;
use vstd::prelude::*;

verus! {

// ------------------------------------------------------------------------ keys

/// A key on the keyboard.
#[derive(Clone, Copy, Debug, PartialEq, Eq, Structural)]
pub enum Key {
    Up,
    Down,
    Left,
    Right,
    Enter,
    Tab,
    Esc,
    Backspace,
    Char(char),
    Other,
}

/// What a key stands for.
#[derive(Clone, Copy, Debug, PartialEq, Eq, Structural)]
pub enum KeyAction {
    Quit,
    Up,
    Down,
    Left,
    Right,
    PageDown,
    PageUp,
    Enter,
    Tab,
    Escape,
    Backspace,
    Char(char),
    ToggleSelect,
    SelectAll,
    Noop,
}

/// What a key stands for, with or without the control key.
pub open spec fn key_action(key: Key, ctrl: bool) -> KeyAction {
    match key {
        Key::Up => KeyAction::Up,
        Key::Down => KeyAction::Down,
        Key::Left => KeyAction::Left,
        Key::Right => KeyAction::Right,
        Key::Enter => KeyAction::Enter,
        Key::Tab => KeyAction::Tab,
        Key::Esc => KeyAction::Escape,
        Key::Backspace => KeyAction::Backspace,
        Key::Other => KeyAction::Noop,
        Key::Char(c) => if c == 'c' && ctrl {
            KeyAction::Quit
        } else if c == 'j' {
            KeyAction::Down
        } else if c == 'k' {
            KeyAction::Up
        } else if c == 'h' {
            KeyAction::Left
        } else if c == 'l' {
            KeyAction::Right
        } else if c == 'd' && ctrl {
            KeyAction::PageDown
        } else if c == 'u' && ctrl {
            KeyAction::PageUp
        } else if c == 'a' && ctrl {
            KeyAction::SelectAll
        } else if c == ' ' {
            KeyAction::ToggleSelect
        } else {
            KeyAction::Char(c)
        },
    }
}

pub fn parse_key_action(key: Key, ctrl: bool) -> (r: KeyAction)
    ensures
        r == key_action(key, ctrl),
{
    match key {
        Key::Up => KeyAction::Up,
        Key::Down => KeyAction::Down,
        Key::Left => KeyAction::Left,
        Key::Right => KeyAction::Right,
        Key::Enter => KeyAction::Enter,
        Key::Tab => KeyAction::Tab,
        Key::Esc => KeyAction::Escape,
        Key::Backspace => KeyAction::Backspace,
        Key::Other => KeyAction::Noop,
        Key::Char(c) => {
            if c == 'c' && ctrl {
                KeyAction::Quit
            } else if c == 'j' {
                KeyAction::Down
            } else if c == 'k' {
                KeyAction::Up
            } else if c == 'h' {
                KeyAction::Left
            } else if c == 'l' {
                KeyAction::Right
            } else if c == 'd' && ctrl {
                KeyAction::PageDown
            } else if c == 'u' && ctrl {
                KeyAction::PageUp
            } else if c == 'a' && ctrl {
                KeyAction::SelectAll
            } else if c == ' ' {
                KeyAction::ToggleSelect
            } else {
                KeyAction::Char(c)
            }
        },
    }
}

// ------------------------------------------------------------------------ form

#[derive(Clone, Copy, Debug, PartialEq, Eq, Structural)]
pub enum FormField {
    Title,
    Description,
    IssueType,
    Priority,
    Status,
}

pub struct IssueForm {
    pub title: String,
    pub description: String,
    pub issue_type: IssueType,
    pub priority: u8,
    pub status: Status,
    pub selected_field: FormField,
}

pub struct FormView {
    pub title: Seq<char>,
    pub description: Seq<char>,
    pub issue_type: IssueType,
    pub priority: u8,
    pub status: Status,
    pub selected_field: FormField,
}

impl View for IssueForm {
    type V = FormView;

    open spec fn view(&self) -> FormView {
        FormView {
            title: self.title@,
            description: self.description@,
            issue_type: self.issue_type,
            priority: self.priority,
            status: self.status,
            selected_field: self.selected_field,
        }
    }
}

/// An empty form.
pub open spec fn empty_form() -> FormView {
    FormView {
        title: seq![],
        description: seq![],
        issue_type: IssueType::Task,
        priority: 2,
        status: Status::Open,
        selected_field: FormField::Title,
    }
}

/// A form that shows an issue.
pub open spec fn form_of(i: IssueView) -> FormView {
    FormView {
        title: i.title,
        description: match i.description {
            Some(d) => d,
            None => seq![],
        },
        issue_type: i.issue_type,
        priority: i.priority,
        status: i.status,
        selected_field: FormField::Title,
    }
}

/// The field behind another, the first behind the last.
pub open spec fn field_after(f: FormField) -> FormField {
    match f {
        FormField::Title => FormField::Description,
        FormField::Description => FormField::IssueType,
        FormField::IssueType => FormField::Priority,
        FormField::Priority => FormField::Status,
        FormField::Status => FormField::Title,
    }
}

/// The type before or behind another, in a circle.
pub open spec fn type_beside(t: IssueType, up: bool) -> IssueType {
    match (t, up) {
        (IssueType::Bug, false) => IssueType::Feature,
        (IssueType::Feature, false) => IssueType::Task,
        (IssueType::Task, false) => IssueType::Epic,
        (IssueType::Epic, false) => IssueType::Chore,
        (IssueType::Chore, false) => IssueType::Bug,
        (IssueType::Bug, true) => IssueType::Chore,
        (IssueType::Feature, true) => IssueType::Bug,
        (IssueType::Task, true) => IssueType::Feature,
        (IssueType::Epic, true) => IssueType::Task,
        (IssueType::Chore, true) => IssueType::Epic,
    }
}

/// The state before or behind another, in a circle over those that a form offers. A state
/// that it does not offer counts as open.
pub open spec fn status_beside(s: Status, up: bool) -> Status {
    match (s, up) {
        (Status::InProgress, false) => Status::Blocked,
        (Status::Blocked, false) => Status::Closed,
        (Status::Closed, false) => Status::Open,
        (_, false) => Status::InProgress,
        (Status::InProgress, true) => Status::Open,
        (Status::Blocked, true) => Status::InProgress,
        (Status::Closed, true) => Status::Blocked,
        (_, true) => Status::Closed,
    }
}

/// The priority one up, at most 4, or one down.
pub open spec fn priority_beside(p: u8, up: bool) -> u8 {
    if up {
        if p < 4 {
            (p + 1) as u8
        } else {
            4
        }
    } else if p > 0 {
        (p - 1) as u8
    } else {
        0
    }
}

/// `s` without its last character.
pub open spec fn without_last(s: Seq<char>) -> Seq<char> {
    if s.len() == 0 {
        s
    } else {
        s.drop_last()
    }
}

/// The form after a key: `Tab` goes to the next field, up and down change a choice, and text
/// is typed into the title or the description.
pub open spec fn form_step(f: FormView, action: KeyAction) -> FormView {
    match action {
        KeyAction::Tab => FormView { selected_field: field_after(f.selected_field), ..f },
        KeyAction::Up => form_choice(f, true),
        KeyAction::Down => form_choice(f, false),
        KeyAction::Backspace => match f.selected_field {
            FormField::Title => FormView { title: without_last(f.title), ..f },
            FormField::Description => FormView { description: without_last(f.description), ..f },
            _ => f,
        },
        KeyAction::Char(c) => if c as u32 <= 0x7F {
            match f.selected_field {
                FormField::Title => FormView { title: f.title.push(c), ..f },
                FormField::Description => FormView { description: f.description.push(c), ..f },
                _ => f,
            }
        } else {
            f
        },
        _ => f,
    }
}

pub open spec fn form_choice(f: FormView, up: bool) -> FormView {
    match f.selected_field {
        FormField::IssueType => FormView { issue_type: type_beside(f.issue_type, up), ..f },
        FormField::Priority => FormView { priority: priority_beside(f.priority, up), ..f },
        FormField::Status => FormView { status: status_beside(f.status, up), ..f },
        _ => f,
    }
}

/// `s` without its last character.
pub fn drop_last_char(s: &str) -> (r: String)
    ensures
        r@ == without_last(s@),
{
    let v = chars_of(s);
    if v.len() == 0 {
        s.to_owned()
    } else {
        let r = text_of(&v, 0, v.len() - 1);
        assert(v@.subrange(0, v@.len() - 1) =~= s@.drop_last());
        r
    }
}

impl IssueForm {
    pub fn new() -> (r: IssueForm)
        ensures
            r@ == empty_form(),
    {
        let r = IssueForm {
            title: String::new(),
            description: String::new(),
            issue_type: IssueType::Task,
            priority: 2,
            status: Status::Open,
            selected_field: FormField::Title,
        };
        assert(r.title@ =~= seq![]);
        assert(r.description@ =~= seq![]);
        r
    }

    pub fn reset(&mut self)
        ensures
            final(self)@ == empty_form(),
    {
        *self = IssueForm::new();
    }

    pub fn from_issue(issue: &Issue) -> (r: IssueForm)
        ensures
            r@ == form_of(issue@),
    {
        let description = match &issue.description {
            Some(d) => d.clone(),
            None => {
                let e = String::new();
                assert(e@ =~= seq![]);
                e
            },
        };
        IssueForm {
            title: issue.title.clone(),
            description,
            issue_type: issue.issue_type,
            priority: issue.priority,
            status: issue.status,
            selected_field: FormField::Title,
        }
    }

    fn choose_beside(&mut self, up: bool)
        ensures
            final(self)@ == form_choice(old(self)@, up),
    {
        match self.selected_field {
            FormField::IssueType => {
                self.issue_type = match (self.issue_type, up) {
                    (IssueType::Bug, false) => IssueType::Feature,
                    (IssueType::Feature, false) => IssueType::Task,
                    (IssueType::Task, false) => IssueType::Epic,
                    (IssueType::Epic, false) => IssueType::Chore,
                    (IssueType::Chore, false) => IssueType::Bug,
                    (IssueType::Bug, true) => IssueType::Chore,
                    (IssueType::Feature, true) => IssueType::Bug,
                    (IssueType::Task, true) => IssueType::Feature,
                    (IssueType::Epic, true) => IssueType::Task,
                    (IssueType::Chore, true) => IssueType::Epic,
                };
            },
            FormField::Priority => {
                self.priority = if up {
                    if self.priority < 4 {
                        self.priority + 1
                    } else {
                        4
                    }
                } else if self.priority > 0 {
                    self.priority - 1
                } else {
                    0
                };
            },
            FormField::Status => {
                self.status = match (self.status, up) {
                    (Status::InProgress, false) => Status::Blocked,
                    (Status::Blocked, false) => Status::Closed,
                    (Status::Closed, false) => Status::Open,
                    (_, false) => Status::InProgress,
                    (Status::InProgress, true) => Status::Open,
                    (Status::Blocked, true) => Status::InProgress,
                    (Status::Closed, true) => Status::Blocked,
                    (_, true) => Status::Closed,
                };
            },
            _ => {},
        }
    }

    /// Takes a key.
    pub fn step(&mut self, action: KeyAction)
        ensures
            final(self)@ == form_step(old(self)@, action),
    {
        match action {
            KeyAction::Tab => {
                self.selected_field = match self.selected_field {
                    FormField::Title => FormField::Description,
                    FormField::Description => FormField::IssueType,
                    FormField::IssueType => FormField::Priority,
                    FormField::Priority => FormField::Status,
                    FormField::Status => FormField::Title,
                };
            },
            KeyAction::Up => self.choose_beside(true),
            KeyAction::Down => self.choose_beside(false),
            KeyAction::Backspace => match self.selected_field {
                FormField::Title => {
                    self.title = drop_last_char(&self.title);
                },
                FormField::Description => {
                    self.description = drop_last_char(&self.description);
                },
                _ => {},
            },
            KeyAction::Char(c) => {
                if c as u32 <= 0x7F {
                    match self.selected_field {
                        FormField::Title => self.title.push(c),
                        FormField::Description => self.description.push(c),
                        _ => {},
                    }
                }
            },
            _ => {},
        }
    }
}

// ---------------------------------------------------------------------- issues

/// A description as a form holds it: none where it is blank.
pub open spec fn form_description(f: FormView) -> Option<Seq<char>> {
    if is_blank_text(f.description) {
        None
    } else {
        Some(f.description)
    }
}

/// The issue that a form describes.
pub open spec fn form_issue(f: FormView, id: Seq<char>, now: Timestamp) -> IssueView {
    IssueView {
        description: form_description(f),
        issue_type: f.issue_type,
        priority: f.priority,
        status: f.status,
        ..fresh_issue(id, f.title, now)
    }
}

/// The issue with what a form says.
pub open spec fn form_update(f: FormView, i: IssueView, now: Timestamp) -> IssueView {
    IssueView {
        title: f.title,
        description: form_description(f),
        issue_type: f.issue_type,
        priority: f.priority,
        status: f.status,
        updated_at: now,
        ..i
    }
}

impl IssueForm {
    fn described(&self) -> (r: Option<String>)
        ensures
            r.deep_view() == form_description(self@),
    {
        if is_blank(&self.description) {
            None
        } else {
            Some(self.description.clone())
        }
    }

    /// The issue that the form describes, made at `now`.
    pub fn to_issue(&self, id: String, now: Timestamp) -> (r: Issue)
        ensures
            r@ == form_issue(self@, id@, now),
    {
        let mut issue = Issue::new_at(id, self.title.clone(), now);
        issue.description = self.described();
        issue.issue_type = self.issue_type;
        issue.priority = self.priority;
        issue.status = self.status;
        issue
    }

    /// The issue with what the form says, changed at `now`.
    pub fn apply_to(&self, issue: &Issue, now: Timestamp) -> (r: Issue)
        ensures
            r@ == form_update(self@, issue@, now),
    {
        let mut out = issue.copy();
        out.title = self.title.clone();
        out.description = self.described();
        out.issue_type = self.issue_type;
        out.priority = self.priority;
        out.status = self.status;
        out.updated_at = now;
        out
    }
}

/// A form that shows an issue and is applied to it unchanged leaves it as it is, but for
/// the time of the update and a description that was blank.
pub proof fn untouched_form_changes_nothing(i: IssueView, now: Timestamp)
    requires
        i.description is Some ==> !is_blank_text(i.description->0),
    ensures
        form_update(form_of(i), i, now) == (IssueView { updated_at: now, ..i }),
{
    assert(is_blank_text(Seq::<char>::empty())) by {
        let e = Seq::<char>::empty();
        assert(crate::text::trimmed_start(e) =~= e);
        assert(crate::text::trimmed_end(e) =~= e);
    }
}

/// A choice goes round: as many steps as there are choices lead back, and a step up undoes
/// a step down.
pub proof fn choices_go_round(t: IssueType, s: Status)
    requires
        s != Status::Tombstone,
    ensures
        type_beside(type_beside(t, false), true) == t,
        type_beside(type_beside(t, true), false) == t,
        status_beside(status_beside(s, false), true) == s,
        status_beside(status_beside(s, true), false) == s,
{
}

/// The priority never leaves the range from 0 to 4 once it is in it.
pub proof fn priority_stays_in_range(p: u8, up: bool)
    requires
        p <= 4,
    ensures
        priority_beside(p, up) <= 4,
{
}

/// Five times `Tab` leads back to the first field.
pub proof fn tab_goes_round(f: FormField)
    ensures
        field_after(field_after(field_after(field_after(field_after(f))))) == f,
{
}

/// A form that is applied gives the issue its title, type, priority and state and, unless it is
/// blank, its description, and changes nothing else but when it was last changed.
pub proof fn forms_set_what_they_show(f: FormView, i: IssueView, now: Timestamp)
    ensures
        form_update(f, i, now).title == f.title,
        form_update(f, i, now).issue_type == f.issue_type,
        form_update(f, i, now).priority == f.priority,
        form_update(f, i, now).status == f.status,
        trimmed(f.description).len() > 0 ==> form_update(f, i, now).description == Some(
            f.description,
        ),
        trimmed(f.description).len() == 0 ==> form_update(f, i, now).description is None,
        form_update(f, i, now).updated_at == now,
        form_update(f, i, now).id == i.id,
        form_update(f, i, now).labels == i.labels,
        form_update(f, i, now).assignee == i.assignee,
        form_update(f, i, now).notes == i.notes,
        form_update(f, i, now).created_at == i.created_at,
        form_update(f, i, now).closed_at == i.closed_at,
        form_update(f, i, now).close_reason == i.close_reason,
        form_update(f, i, now).created_by == i.created_by,
        form_update(f, i, now).deleted_at == i.deleted_at,
        form_update(f, i, now).deleted_by == i.deleted_by,
        form_update(f, i, now).delete_reason == i.delete_reason,
        form_update(f, i, now).original_type == i.original_type,
        form_update(f, i, now).sessions == i.sessions,
        form_update(f, i, now).dependencies == i.dependencies,
{
}

/// A form that is saved makes an issue with what it shows, under its id, now, and with nothing
/// else.
pub proof fn forms_make_what_they_show(f: FormView, id: Seq<char>, now: Timestamp)
    ensures
        ({
            let i = form_issue(f, id, now);
            &&& i.id == id && i.title == f.title && i.issue_type == f.issue_type && i.priority
                == f.priority && i.status == f.status
            &&& trimmed(f.description).len() > 0 ==> i.description == Some(f.description)
            &&& trimmed(f.description).len() == 0 ==> i.description is None
            &&& i.created_at == now && i.updated_at == now
            &&& i.labels.len() == 0 && i.dependencies.len() == 0 && i.assignee is None && i.notes
                is None && i.closed_at is None
        }),
{
}

/// A form is filled from an issue: what it shows is what the issue says.
pub proof fn forms_show_the_issue(i: IssueView)
    ensures
        form_of(i).title == i.title,
        form_of(i).issue_type == i.issue_type,
        form_of(i).priority == i.priority,
        form_of(i).status == i.status,
        i.description matches Some(d) ==> form_of(i).description == d,
        i.description is None ==> form_of(i).description.len() == 0,
        form_of(i).selected_field == FormField::Title,
        empty_form().title.len() == 0 && empty_form().description.len() == 0 && empty_form().priority
            == 2 && empty_form().issue_type == IssueType::Task && empty_form().status
            == Status::Open,
{
}

/// A key changes the field that is chosen and no other: a character is put behind a text, the
/// backspace takes the last one away, and up and down change a choice.
pub proof fn keys_change_the_chosen_field(f: FormView, c: char)
    ensures
        ({
            let typed = form_step(f, KeyAction::Char(c));
            let erased = form_step(f, KeyAction::Backspace);
            let up = form_step(f, KeyAction::Up);
            let down = form_step(f, KeyAction::Down);
            &&& f.selected_field == FormField::Title && c as u32 <= 0x7F ==> typed.title
                == f.title.push(c)
            &&& f.selected_field == FormField::Description && c as u32 <= 0x7F ==> typed.description
                == f.description.push(c)
            &&& f.selected_field == FormField::Title && f.title.len() > 0 ==> erased.title
                == f.title.drop_last()
            &&& f.selected_field == FormField::Description && f.description.len() > 0
                ==> erased.description == f.description.drop_last()
            &&& f.selected_field != FormField::Title ==> typed.title == f.title && erased.title
                == f.title
            &&& f.selected_field != FormField::Description ==> typed.description == f.description
                && erased.description == f.description
            &&& typed.issue_type == f.issue_type && typed.priority == f.priority && typed.status
                == f.status && typed.selected_field == f.selected_field
            &&& erased.issue_type == f.issue_type && erased.priority == f.priority && erased.status
                == f.status && erased.selected_field == f.selected_field
            &&& f.selected_field == FormField::Priority && f.priority < 4 ==> up.priority
                == f.priority + 1
            &&& f.selected_field == FormField::Priority && 0 < f.priority ==> down.priority
                == f.priority - 1
            &&& f.selected_field != FormField::Priority ==> up.priority == f.priority
                && down.priority == f.priority
            &&& f.selected_field != FormField::Status ==> up.status == f.status && down.status
                == f.status
            &&& f.selected_field != FormField::IssueType ==> up.issue_type == f.issue_type
                && down.issue_type == f.issue_type
            &&& f.selected_field == FormField::Status && f.status != Status::Tombstone ==> up.status
                != f.status && down.status != f.status && up.status != Status::Tombstone
                && down.status != Status::Tombstone
            &&& f.selected_field == FormField::IssueType ==> up.issue_type != f.issue_type
                && down.issue_type != f.issue_type
            &&& up.title == f.title && up.description == f.description && down.title == f.title
                && down.description == f.description
            &&& form_step(f, KeyAction::Tab).selected_field != f.selected_field
        }),
{
}

/// Law: a key that is a character stands for it, but for the ones that move the cursor, mark an
/// issue, or have a meaning with the control key.
pub proof fn keys_stand_for_their_character(c: char)
    ensures
        c != 'j' && c != 'k' && c != 'h' && c != 'l' && c != ' ' ==> key_action(Key::Char(c), false)
            == KeyAction::Char(c),
        key_action(Key::Char('j'), false) == key_action(Key::Down, false),
        key_action(Key::Char('k'), false) == key_action(Key::Up, false),
        key_action(Key::Char('h'), false) == key_action(Key::Left, false),
        key_action(Key::Char('l'), false) == key_action(Key::Right, false),
        key_action(Key::Down, false) == KeyAction::Down && key_action(Key::Up, false)
            == KeyAction::Up,
        key_action(Key::Left, false) == KeyAction::Left && key_action(Key::Right, false)
            == KeyAction::Right,
        key_action(Key::Enter, false) == KeyAction::Enter && key_action(Key::Esc, false)
            == KeyAction::Escape,
        key_action(Key::Tab, false) == KeyAction::Tab && key_action(Key::Backspace, false)
            == KeyAction::Backspace,
        key_action(Key::Char('c'), true) == KeyAction::Quit,
        key_action(Key::Char('d'), true) == KeyAction::PageDown,
        key_action(Key::Char('u'), true) == KeyAction::PageUp,
        key_action(Key::Char('a'), true) == KeyAction::SelectAll,
        key_action(Key::Char(' '), false) == KeyAction::ToggleSelect,
{
}

} // verus!
