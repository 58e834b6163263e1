//! The decisions of the terminal interface, as a state machine: the state of
//! the two input fields and the pop-ups, and what each key press does to it.
//! Running a rename and leaving are actions for the caller to carry out.
use vstd::prelude::*;

use crate::cursor::{byte_len, index_at};
use crate::field::TextField;
use crate::history::{entry_views, EntryView};
use crate::pattern::{fallback_source, regex_compiles, Matcher};
use crate::safety::{check_preflight_safety, item_names, preflight_outcome, SafetyViolation, ViolationView};

verus! {

/// Which input field has the keyboard.
#[derive(Clone, Copy, PartialEq, Eq, Structural, Debug)]
pub enum FocusedField {
    Match,
    Rename,
}

/// The highlighted button of the confirmation pop-up.
#[derive(Clone, Copy, PartialEq, Eq, Structural, Debug)]
pub enum ConfirmChoice {
    Yes,
    No,
}

/// A key of the keyboard.
#[derive(Clone, Copy, PartialEq, Eq, Structural, Debug)]
pub enum Key {
    Char(char),
    Up,
    Down,
    Left,
    Right,
    Tab,
    Enter,
    Esc,
    Home,
    End,
    Backspace,
    Delete,
    Other,
}

/// A key event: the key, the modifiers held, and whether it is a release.
#[derive(Clone, Copy, PartialEq, Eq, Structural, Debug)]
pub struct KeyPress {
    pub key: Key,
    pub shift: bool,
    pub control: bool,
    pub alt: bool,
    pub other_modifiers: bool,
    pub release: bool,
}

/// The safety settings chosen on the command line.
#[derive(Clone, Copy, PartialEq, Eq, Structural, Debug)]
pub struct Settings {
    pub confirm: bool,
    pub prevent_delete: bool,
}

/// The pop-up shown over the fields, if any.
#[derive(Debug)]
pub enum Modal {
    Closed,
    Confirm,
    Blocked(SafetyViolation),
    /// The history picker, with the index of the selected pair.
    History(usize),
}

/// What the caller has to do after a key press.
#[derive(Clone, Copy, PartialEq, Eq, Structural, Debug)]
pub enum Action {
    Nothing,
    /// Run the rename of the current match and rename fields.
    Rename,
    /// Leave without renaming.
    Exit,
}

/// The state of the interface.
pub struct AppState {
    pub match_field: TextField,
    pub rename_field: TextField,
    pub focused_field: FocusedField,
    pub modal: Modal,
    pub confirm_choice: ConfirmChoice,
    pub scroll_offset: i32,
}

/// A field as plain values: its text and the index of the character at the
/// cursor.
#[verifier::ext_equal]
pub struct FieldView {
    pub text: Seq<char>,
    pub index: int,
}

/// The pop-up as plain values.
pub enum ModalView {
    Closed,
    Confirm,
    Blocked(ViolationView),
    History(nat),
}

/// The state as plain values.
#[verifier::ext_equal]
pub struct AppView {
    pub match_field: FieldView,
    pub rename_field: FieldView,
    pub focused: FocusedField,
    pub modal: ModalView,
    pub choice: ConfirmChoice,
    pub scroll: int,
}

pub open spec fn field_view(f: TextField) -> FieldView {
    FieldView { text: f.value@, index: f.cursor_index() }
}

pub open spec fn modal_view(m: Modal) -> ModalView {
    match m {
        Modal::Closed => ModalView::Closed,
        Modal::Confirm => ModalView::Confirm,
        Modal::Blocked(v) => ModalView::Blocked(v.view()),
        Modal::History(i) => ModalView::History(i as nat),
    }
}

impl AppState {
    pub open spec fn view(&self) -> AppView {
        AppView {
            match_field: field_view(self.match_field),
            rename_field: field_view(self.rename_field),
            focused: self.focused_field,
            modal: modal_view(self.modal),
            choice: self.confirm_choice,
            scroll: self.scroll_offset as int,
        }
    }

    /// Both cursors on character boundaries and the scroll offset in range.
    pub open spec fn wf(&self) -> bool {
        &&& self.match_field.wf()
        &&& self.rename_field.wf()
        &&& -1 <= self.scroll_offset < i32::MAX
    }
}

/// The state at start: match `(.*)`, rename `${1}`, cursors at the ends, the
/// match field focused, no pop-up, nothing scrolled.
pub open spec fn initial_view() -> AppView {
    AppView {
        match_field: FieldView { text: "(.*)"@, index: 4 },
        rename_field: FieldView { text: "${1}"@, index: 4 },
        focused: FocusedField::Match,
        modal: ModalView::Closed,
        choice: ConfirmChoice::Yes,
        scroll: 0,
    }
}

/// The pattern the match field stands for: its text when it compiles,
/// otherwise `^$`.
pub open spec fn effective_source(text: Seq<char>) -> Seq<char> {
    if regex_compiles(text) {
        text
    } else {
        fallback_source()
    }
}

/// Whether the key is a character typed without control, alt or other
/// modifiers (shift allowed).
pub open spec fn is_plain(p: KeyPress) -> bool {
    !p.control && !p.alt && !p.other_modifiers
}

/// Whether the key is Ctrl+R.
pub open spec fn is_history_key(p: KeyPress) -> bool {
    &&& p.control && !p.alt && !p.other_modifiers
    &&& (p.key == Key::Char('r') || p.key == Key::Char('R'))
}

/// The effect of an editing key on a field.
pub open spec fn edit_field(f: FieldView, k: Key) -> FieldView {
    match k {
        Key::Left => FieldView { index: if f.index > 0 { f.index - 1 } else { 0 }, ..f },
        Key::Right => FieldView {
            index: if f.index < f.text.len() { f.index + 1 } else { f.text.len() as int },
            ..f
        },
        Key::Home => FieldView { index: 0, ..f },
        Key::End => FieldView { index: f.text.len() as int, ..f },
        Key::Backspace => if f.index > 0 {
            FieldView { text: f.text.remove(f.index - 1), index: f.index - 1 }
        } else {
            f
        },
        Key::Delete => if f.index < f.text.len() {
            FieldView { text: f.text.remove(f.index), ..f }
        } else {
            f
        },
        Key::Char(c) => FieldView { text: f.text.insert(f.index, c), index: f.index + 1 },
        _ => f,
    }
}

/// The refusal that blocks a rename, when overwrite protection is on.
pub open spec fn blocking_violation(v: AppView, names: Seq<Seq<char>>, settings: Settings) -> Option<
    ViolationView,
> {
    if settings.prevent_delete {
        preflight_outcome(effective_source(v.match_field.text), names, v.rename_field.text)
    } else {
        None
    }
}

/// Carrying out a confirmed rename: refused with a pop-up, or run.
pub open spec fn attempt_rename(v: AppView, names: Seq<Seq<char>>, settings: Settings) -> (
    AppView,
    Action,
) {
    match blocking_violation(v, names, settings) {
        Some(x) => (AppView { modal: ModalView::Blocked(x), ..v }, Action::Nothing),
        None => (v, Action::Rename),
    }
}

/// A key press in the confirmation pop-up.
pub open spec fn step_confirm(v: AppView, p: KeyPress, names: Seq<Seq<char>>, settings: Settings) -> (
    AppView,
    Action,
) {
    if p.key == Key::Char('y') || p.key == Key::Char('Y') {
        attempt_rename(v, names, settings)
    } else if p.key == Key::Char('n') || p.key == Key::Char('N') || p.key == Key::Esc {
        (AppView { modal: ModalView::Closed, ..v }, Action::Nothing)
    } else if p.key == Key::Left || p.key == Key::Right || p.key == Key::Tab {
        (
            AppView {
                choice: if v.choice == ConfirmChoice::Yes {
                    ConfirmChoice::No
                } else {
                    ConfirmChoice::Yes
                },
                ..v
            },
            Action::Nothing,
        )
    } else if p.key == Key::Enter {
        if v.choice == ConfirmChoice::Yes {
            attempt_rename(v, names, settings)
        } else {
            (AppView { modal: ModalView::Closed, ..v }, Action::Nothing)
        }
    } else {
        (v, Action::Nothing)
    }
}

/// A key press in the pop-up that reports a refused rename.
pub open spec fn step_blocked(v: AppView, p: KeyPress) -> (AppView, Action) {
    if p.key == Key::Enter || p.key == Key::Esc || p.key == Key::Char(' ') || p.key == Key::Char('o')
        || p.key == Key::Char('O') {
        (AppView { modal: ModalView::Closed, ..v }, Action::Nothing)
    } else {
        (v, Action::Nothing)
    }
}

/// A key press in the history picker with pair `i` selected.
pub open spec fn step_history(v: AppView, p: KeyPress, i: nat, history: Seq<EntryView>) -> (
    AppView,
    Action,
) {
    if is_history_key(p) {
        let next = if i + 1 < history.len() { i + 1 } else { 0 };
        (AppView { modal: ModalView::History(next as nat), ..v }, Action::Nothing)
    } else if p.key == Key::Up {
        (AppView { modal: ModalView::History(if i > 0 { (i - 1) as nat } else { 0 }), ..v }, Action::Nothing)
    } else if p.key == Key::Down {
        (AppView { modal: ModalView::History(if i + 1 < history.len() { i + 1 } else { i }), ..v }, Action::Nothing)
    } else if p.key == Key::Enter {
        if i < history.len() {
            (
                AppView {
                    match_field: FieldView { text: history[i as int].0, index: history[i as int].0.len() as int },
                    rename_field: FieldView { text: history[i as int].1, index: history[i as int].1.len() as int },
                    modal: ModalView::Closed,
                    ..v
                },
                Action::Nothing,
            )
        } else {
            (AppView { modal: ModalView::Closed, ..v }, Action::Nothing)
        }
    } else if p.key == Key::Esc {
        (AppView { modal: ModalView::Closed, ..v }, Action::Nothing)
    } else {
        (v, Action::Nothing)
    }
}

/// A key press with no pop-up shown.
pub open spec fn step_main(
    v: AppView,
    p: KeyPress,
    names: Seq<Seq<char>>,
    history: Seq<EntryView>,
    settings: Settings,
) -> (AppView, Action) {
    let item_count = names.len() as int;
    if is_history_key(p) {
        if history.len() > 0 {
            (AppView { modal: ModalView::History(0), ..v }, Action::Nothing)
        } else {
            (v, Action::Nothing)
        }
    } else if p.key == Key::Esc {
        (v, Action::Exit)
    } else if p.key == Key::Up {
        (AppView { scroll: if v.scroll - 1 > 0 { v.scroll - 1 } else { 0 }, ..v }, Action::Nothing)
    } else if p.key == Key::Down {
        (AppView { scroll: if v.scroll + 1 < item_count - 1 { v.scroll + 1 } else { item_count - 1 }, ..v }, Action::Nothing)
    } else if p.key == Key::Tab {
        (
            AppView {
                focused: if v.focused == FocusedField::Match {
                    FocusedField::Rename
                } else {
                    FocusedField::Match
                },
                ..v
            },
            Action::Nothing,
        )
    } else if p.key == Key::Enter {
        match blocking_violation(v, names, settings) {
            Some(x) => (AppView { modal: ModalView::Blocked(x), ..v }, Action::Nothing),
            None => if settings.confirm {
                (AppView { choice: ConfirmChoice::Yes, modal: ModalView::Confirm, ..v }, Action::Nothing)
            } else {
                (v, Action::Rename)
            },
        }
    } else if p.key == Key::Left || p.key == Key::Right || p.key == Key::Home || p.key == Key::End
        || p.key == Key::Backspace || p.key == Key::Delete || (p.key is Char && is_plain(p)) {
        if v.focused == FocusedField::Match {
            (AppView { match_field: edit_field(v.match_field, p.key), ..v }, Action::Nothing)
        } else {
            (AppView { rename_field: edit_field(v.rename_field, p.key), ..v }, Action::Nothing)
        }
    } else {
        (v, Action::Nothing)
    }
}

/// What a key press does: release events are ignored; otherwise the pop-up
/// shown, if any, decides.
pub open spec fn step(
    v: AppView,
    p: KeyPress,
    names: Seq<Seq<char>>,
    history: Seq<EntryView>,
    settings: Settings,
) -> (AppView, Action) {
    if p.release {
        (v, Action::Nothing)
    } else {
        match v.modal {
            ModalView::Confirm => step_confirm(v, p, names, settings),
            ModalView::Blocked(_) => step_blocked(v, p),
            ModalView::History(i) => step_history(v, p, i, history),
            ModalView::Closed => step_main(v, p, names, history, settings),
        }
    }
}

/// The field that has the keyboard.
pub open spec fn focused_view(v: AppView) -> FieldView {
    if v.focused == FocusedField::Match {
        v.match_field
    } else {
        v.rename_field
    }
}

/// The state with the focused field replaced by `f`, all else kept.
pub open spec fn with_focused_field(v: AppView, f: FieldView) -> AppView {
    if v.focused == FocusedField::Match {
        AppView { match_field: f, ..v }
    } else {
        AppView { rename_field: f, ..v }
    }
}

/// The cursor of a field lies within its text.
pub open spec fn field_in_range(f: FieldView) -> bool {
    0 <= f.index <= f.text.len()
}

/// Key releases change nothing and ask for nothing.
pub proof fn lemma_release_ignored(
    v: AppView,
    p: KeyPress,
    names: Seq<Seq<char>>,
    history: Seq<EntryView>,
    settings: Settings,
)
    requires
        p.release,
    ensures
        step(v, p, names, history, settings) == (v, Action::Nothing),
{
}

/// The editing keys with no pop-up shown act on the focused field only:
/// Home puts the cursor at the start and End at the end; Left and Right move
/// it one character, stopping at the ends; Backspace removes the character
/// before the cursor and Delete the one at it; a character typed without
/// control, alt or other modifiers is inserted at the cursor, which moves
/// past it. Nothing else changes and nothing is asked for.
pub proof fn lemma_editing_keys(
    v: AppView,
    p: KeyPress,
    names: Seq<Seq<char>>,
    history: Seq<EntryView>,
    settings: Settings,
)
    requires
        v.modal == ModalView::Closed,
        !p.release,
        field_in_range(focused_view(v)),
    ensures
        ({
            let t = focused_view(v).text;
            let i = focused_view(v).index;
            let n = t.len() as int;
            let r = step(v, p, names, history, settings);
            &&& p.key == Key::Home ==> r == (
                with_focused_field(v, FieldView { text: t, index: 0 }),
                Action::Nothing,
            )
            &&& p.key == Key::End ==> r == (
                with_focused_field(v, FieldView { text: t, index: n }),
                Action::Nothing,
            )
            &&& p.key == Key::Left ==> r == (
                with_focused_field(v, FieldView { text: t, index: if i > 0 { i - 1 } else { 0 } }),
                Action::Nothing,
            )
            &&& p.key == Key::Right ==> r == (
                with_focused_field(v, FieldView { text: t, index: if i < n { i + 1 } else { n } }),
                Action::Nothing,
            )
            &&& p.key == Key::Backspace && i > 0 ==> r == (
                with_focused_field(
                    v,
                    FieldView { text: t.subrange(0, i - 1) + t.subrange(i, n), index: i - 1 },
                ),
                Action::Nothing,
            )
            &&& p.key == Key::Backspace && i == 0 ==> r == (v, Action::Nothing)
            &&& p.key == Key::Delete && i < n ==> r == (
                with_focused_field(v, FieldView { text: t.subrange(0, i) + t.subrange(i + 1, n), index: i }),
                Action::Nothing,
            )
            &&& p.key == Key::Delete && i == n ==> r == (v, Action::Nothing)
            &&& p.key is Char && !p.control && !p.alt && !p.other_modifiers ==> r == (
                with_focused_field(
                    v,
                    FieldView {
                        text: t.subrange(0, i).push(p.key->Char_0) + t.subrange(i, n),
                        index: i + 1,
                    },
                ),
                Action::Nothing,
            )
        }),
{
    let f = focused_view(v);
    if v.focused == FocusedField::Match {
        assert(f == v.match_field);
    } else {
        assert(f == v.rename_field);
    }
    if p.key == Key::Backspace && f.index == 0 {
        assert(edit_field(f, p.key) == f);
    }
    if p.key == Key::Delete && f.index == f.text.len() {
        assert(edit_field(f, p.key) == f);
    }
}

/// The other keys with no pop-up shown: Tab moves the focus to the other
/// field; Up scrolls up one line, not above the top; Down scrolls down one
/// line, not below the last entry; Esc leaves; Ctrl+R opens the history
/// picker on the most recent pair when there is one; Enter shows the refusal
/// when overwrite protection is on and the checks refuse, otherwise opens the
/// confirmation pop-up with "Yes" selected when confirmation is on, otherwise
/// asks for the rename.
pub proof fn lemma_main_keys(
    v: AppView,
    p: KeyPress,
    names: Seq<Seq<char>>,
    history: Seq<EntryView>,
    settings: Settings,
)
    requires
        v.modal == ModalView::Closed,
        !p.release,
    ensures
        ({
            let r = step(v, p, names, history, settings);
            let outcome = preflight_outcome(
                effective_source(v.match_field.text),
                names,
                v.rename_field.text,
            );
            &&& p.key == Key::Tab ==> r == (
                AppView {
                    focused: if v.focused == FocusedField::Match {
                        FocusedField::Rename
                    } else {
                        FocusedField::Match
                    },
                    ..v
                },
                Action::Nothing,
            )
            &&& p.key == Key::Up ==> r == (
                AppView { scroll: if v.scroll >= 1 { v.scroll - 1 } else { 0 }, ..v },
                Action::Nothing,
            )
            &&& p.key == Key::Down ==> r == (
                AppView {
                    scroll: if v.scroll + 1 <= names.len() - 1 { v.scroll + 1 } else { names.len() - 1 },
                    ..v
                },
                Action::Nothing,
            )
            &&& p.key == Key::Esc ==> r == (v, Action::Exit)
            &&& p.control && !p.alt && !p.other_modifiers && (p.key == Key::Char('r') || p.key
                == Key::Char('R')) ==> r == (
                if history.len() > 0 {
                    AppView { modal: ModalView::History(0), ..v }
                } else {
                    v
                },
                Action::Nothing,
            )
            &&& p.key == Key::Enter && settings.prevent_delete && outcome is Some ==> r == (
                AppView { modal: ModalView::Blocked(outcome->Some_0), ..v },
                Action::Nothing,
            )
            &&& p.key == Key::Enter && !(settings.prevent_delete && outcome is Some)
                && settings.confirm ==> r == (
                AppView { modal: ModalView::Confirm, choice: ConfirmChoice::Yes, ..v },
                Action::Nothing,
            )
            &&& p.key == Key::Enter && !(settings.prevent_delete && outcome is Some)
                && !settings.confirm ==> r == (v, Action::Rename)
        }),
{
}

/// The keys of the confirmation pop-up: `n`, `N` and Esc close it and return
/// to editing; Left, Right and Tab switch the selected button; `y`, `Y`, and
/// Enter on "Yes", carry the rename out: refused with the refusal shown when
/// overwrite protection is on and the checks refuse, otherwise asked for;
/// Enter on "No" closes the pop-up. Other keys change nothing.
pub proof fn lemma_confirm_keys(
    v: AppView,
    p: KeyPress,
    names: Seq<Seq<char>>,
    history: Seq<EntryView>,
    settings: Settings,
)
    requires
        v.modal == ModalView::Confirm,
        !p.release,
    ensures
        ({
            let r = step(v, p, names, history, settings);
            let outcome = preflight_outcome(
                effective_source(v.match_field.text),
                names,
                v.rename_field.text,
            );
            let carry_out = if settings.prevent_delete && outcome is Some {
                (AppView { modal: ModalView::Blocked(outcome->Some_0), ..v }, Action::Nothing)
            } else {
                (v, Action::Rename)
            };
            &&& (p.key == Key::Char('n') || p.key == Key::Char('N') || p.key == Key::Esc) ==> r == (
                AppView { modal: ModalView::Closed, ..v },
                Action::Nothing,
            )
            &&& (p.key == Key::Left || p.key == Key::Right || p.key == Key::Tab) ==> r == (
                AppView {
                    choice: if v.choice == ConfirmChoice::Yes {
                        ConfirmChoice::No
                    } else {
                        ConfirmChoice::Yes
                    },
                    ..v
                },
                Action::Nothing,
            )
            &&& (p.key == Key::Char('y') || p.key == Key::Char('Y')) ==> r == carry_out
            &&& p.key == Key::Enter && v.choice == ConfirmChoice::Yes ==> r == carry_out
            &&& p.key == Key::Enter && v.choice == ConfirmChoice::No ==> r == (
                AppView { modal: ModalView::Closed, ..v },
                Action::Nothing,
            )
            &&& !(p.key == Key::Char('n') || p.key == Key::Char('N') || p.key == Key::Esc || p.key
                == Key::Left || p.key == Key::Right || p.key == Key::Tab || p.key == Key::Char('y')
                || p.key == Key::Char('Y') || p.key == Key::Enter) ==> r == (v, Action::Nothing)
        }),
{
}

/// The refusal pop-up closes on Enter, Esc, space, `o` and `O`, and ignores
/// other keys; it never asks for anything.
pub proof fn lemma_blocked_keys(
    v: AppView,
    p: KeyPress,
    names: Seq<Seq<char>>,
    history: Seq<EntryView>,
    settings: Settings,
)
    requires
        v.modal is Blocked,
        !p.release,
    ensures
        ({
            let r = step(v, p, names, history, settings);
            let closes = p.key == Key::Enter || p.key == Key::Esc || p.key == Key::Char(' ')
                || p.key == Key::Char('o') || p.key == Key::Char('O');
            &&& closes ==> r == (AppView { modal: ModalView::Closed, ..v }, Action::Nothing)
            &&& !closes ==> r == (v, Action::Nothing)
        }),
{
}

/// The history picker with pair `i` selected: Up selects the previous pair
/// (not before the first), Down the next (not after the last), Ctrl+R the
/// next one round to the first; Enter loads the selected pair into the match
/// and rename fields, cursors at their ends, and closes; Esc closes. It never
/// asks for anything.
pub proof fn lemma_history_keys(
    v: AppView,
    p: KeyPress,
    names: Seq<Seq<char>>,
    history: Seq<EntryView>,
    settings: Settings,
    i: nat,
)
    requires
        v.modal == ModalView::History(i),
        !p.release,
        i < history.len(),
    ensures
        ({
            let r = step(v, p, names, history, settings);
            let ctrl_r = p.control && !p.alt && !p.other_modifiers && (p.key == Key::Char('r')
                || p.key == Key::Char('R'));
            &&& r.1 == Action::Nothing
            &&& ctrl_r ==> r.0 == AppView {
                modal: ModalView::History((((i + 1) as int) % (history.len() as int)) as nat),
                ..v
            }
            &&& !ctrl_r && p.key == Key::Up ==> r.0 == AppView {
                modal: ModalView::History(if i >= 1 { (i - 1) as nat } else { 0 }),
                ..v
            }
            &&& !ctrl_r && p.key == Key::Down ==> r.0 == AppView {
                modal: ModalView::History(if i + 1 < history.len() { i + 1 } else { i }),
                ..v
            }
            &&& !ctrl_r && p.key == Key::Enter ==> r.0 == AppView {
                match_field: FieldView {
                    text: history[i as int].0,
                    index: history[i as int].0.len() as int,
                },
                rename_field: FieldView {
                    text: history[i as int].1,
                    index: history[i as int].1.len() as int,
                },
                modal: ModalView::Closed,
                ..v
            }
            &&& !ctrl_r && p.key == Key::Esc ==> r.0 == AppView { modal: ModalView::Closed, ..v }
        }),
{
    if i + 1 < history.len() {
        let a = (i + 1) as int;
        let m = history.len() as int;
        assert(a % m == a) by (nonlinear_arith)
            requires
                0 <= a < m,
        ;
    } else {
        let m = history.len() as int;
        assert(m % m == 0) by (nonlinear_arith)
            requires
                m > 0,
        ;
        assert((i + 1) as int == m);
    }
}

/// With overwrite protection on, a key press only ever asks for a rename
/// that the checks let run.
pub proof fn lemma_protected_rename_passes_checks(
    v: AppView,
    p: KeyPress,
    names: Seq<Seq<char>>,
    history: Seq<EntryView>,
    settings: Settings,
)
    requires
        settings.prevent_delete,
        step(v, p, names, history, settings).1 == Action::Rename,
    ensures
        preflight_outcome(effective_source(v.match_field.text), names, v.rename_field.text) is None,
{
}

/// With confirmation on, a rename is only asked for from the confirmation
/// pop-up.
pub proof fn lemma_confirmed_rename_needs_popup(
    v: AppView,
    p: KeyPress,
    names: Seq<Seq<char>>,
    history: Seq<EntryView>,
    settings: Settings,
)
    requires
        settings.confirm,
        step(v, p, names, history, settings).1 == Action::Rename,
    ensures
        v.modal == ModalView::Confirm,
{
}

/// Outside the history picker, only an editing key pressed with no pop-up
/// shown changes the fields (their text or their cursors).
pub proof fn lemma_fields_change_only_by_editing(
    v: AppView,
    p: KeyPress,
    names: Seq<Seq<char>>,
    history: Seq<EntryView>,
    settings: Settings,
)
    requires
        !(v.modal is History),
        !(v.modal == ModalView::Closed && !p.release && (p.key == Key::Left || p.key == Key::Right
            || p.key == Key::Home || p.key == Key::End || p.key == Key::Backspace || p.key
            == Key::Delete || (p.key is Char && is_plain(p)))),
    ensures
        step(v, p, names, history, settings).0.match_field == v.match_field,
        step(v, p, names, history, settings).0.rename_field == v.rename_field,
{
}

impl AppState {
    /// The state at start.
    pub fn new() -> (s: AppState)
        ensures
            s.wf(),
            s.view() =~= initial_view(),
    {
        let m = TextField::with_text("(.*)");
        let r = TextField::with_text("${1}");
        proof {
            reveal_strlit("(.*)");
            reveal_strlit("${1}");
        }
        AppState {
            match_field: m,
            rename_field: r,
            focused_field: FocusedField::Match,
            modal: Modal::Closed,
            confirm_choice: ConfirmChoice::Yes,
            scroll_offset: 0,
        }
    }

    /// Runs a confirmed rename, unless overwrite protection refuses it.
    fn attempt(&mut self, items: &[(bool, String)], settings: Settings) -> (a: Action)
        requires
            old(self).wf(),
        ensures
            final(self).wf(),
            final(self).view() =~= attempt_rename(old(self).view(), item_names(items@), settings).0,
            a == attempt_rename(old(self).view(), item_names(items@), settings).1,
    {
        if settings.prevent_delete {
            let m = Matcher::from_field(self.match_field.value.as_str());
            match check_preflight_safety(items, &m, self.rename_field.value.as_str()) {
                Err(v) => {
                    self.modal = Modal::Blocked(v);
                    return Action::Nothing;
                },
                Ok(()) => {},
            }
        }
        Action::Rename
    }

    /// Applies an editing key to the focused field.
    fn edit(&mut self, key: Key)
        requires
            old(self).wf(),
        ensures
            final(self).wf(),
            final(self).view() =~= (if old(self).focused_field == FocusedField::Match {
                AppView {
                    match_field: edit_field(old(self).view().match_field, key),
                    ..old(self).view()
                }
            } else {
                AppView {
                    rename_field: edit_field(old(self).view().rename_field, key),
                    ..old(self).view()
                }
            }),
    {
        match self.focused_field {
            FocusedField::Match => Self::edit_one(&mut self.match_field, key),
            FocusedField::Rename => Self::edit_one(&mut self.rename_field, key),
        }
    }

    fn edit_one(f: &mut TextField, key: Key)
        requires
            old(f).wf(),
        ensures
            final(f).wf(),
            field_view(*final(f)) =~= edit_field(field_view(*old(f)), key),
    {
        match key {
            Key::Left => f.move_left(),
            Key::Right => f.move_right(),
            Key::Home => f.move_home(),
            Key::End => f.move_end(),
            Key::Backspace => f.backspace(),
            Key::Delete => f.delete(),
            Key::Char(c) => f.insert_char(c),
            _ => {},
        }
    }

    /// Handles one key press. `items` are the directory entries shown,
    /// `history` the stored pairs, most recent first.
    pub fn handle_key(
        &mut self,
        p: KeyPress,
        items: &[(bool, String)],
        history: &[(String, String)],
        settings: Settings,
    ) -> (a: Action)
        requires
            old(self).wf(),
            items@.len() <= i32::MAX,
        ensures
            final(self).wf(),
            final(self).view() =~= step(
                old(self).view(),
                p,
                item_names(items@),
                entry_views(history@),
                settings,
            ).0,
            a == step(old(self).view(), p, item_names(items@), entry_views(history@), settings).1,
    {
        if p.release {
            return Action::Nothing;
        }
        let history_key = p.control && !p.alt && !p.other_modifiers && (p.key == Key::Char('r')
            || p.key == Key::Char('R'));
        match self.modal {
            Modal::Confirm => {
                if p.key == Key::Char('y') || p.key == Key::Char('Y') {
                    self.attempt(items, settings)
                } else if p.key == Key::Char('n') || p.key == Key::Char('N') || p.key == Key::Esc {
                    self.modal = Modal::Closed;
                    Action::Nothing
                } else if p.key == Key::Left || p.key == Key::Right || p.key == Key::Tab {
                    self.confirm_choice = match self.confirm_choice {
                        ConfirmChoice::Yes => ConfirmChoice::No,
                        ConfirmChoice::No => ConfirmChoice::Yes,
                    };
                    Action::Nothing
                } else if p.key == Key::Enter {
                    match self.confirm_choice {
                        ConfirmChoice::Yes => self.attempt(items, settings),
                        ConfirmChoice::No => {
                            self.modal = Modal::Closed;
                            Action::Nothing
                        },
                    }
                } else {
                    Action::Nothing
                }
            },
            Modal::Blocked(_) => {
                if p.key == Key::Enter || p.key == Key::Esc || p.key == Key::Char(' ') || p.key
                    == Key::Char('o') || p.key == Key::Char('O') {
                    self.modal = Modal::Closed;
                }
                Action::Nothing
            },
            Modal::History(i) => {
                if history_key {
                    self.modal = Modal::History(if i < history.len() && i + 1 < history.len() {
                        i + 1
                    } else {
                        0
                    });
                } else if p.key == Key::Up {
                    self.modal = Modal::History(if i > 0 { i - 1 } else { 0 });
                } else if p.key == Key::Down {
                    self.modal = Modal::History(if i < history.len() && i + 1 < history.len() {
                        i + 1
                    } else {
                        i
                    });
                } else if p.key == Key::Enter {
                    if i < history.len() {
                        self.match_field = TextField::with_text(history[i].0.as_str());
                        self.rename_field = TextField::with_text(history[i].1.as_str());
                    }
                    self.modal = Modal::Closed;
                } else if p.key == Key::Esc {
                    self.modal = Modal::Closed;
                }
                Action::Nothing
            },
            Modal::Closed => {
                if history_key {
                    if history.len() > 0 {
                        self.modal = Modal::History(0);
                    }
                    Action::Nothing
                } else if p.key == Key::Esc {
                    Action::Exit
                } else if p.key == Key::Up {
                    self.scroll_offset = if self.scroll_offset - 1 > 0 {
                        self.scroll_offset - 1
                    } else {
                        0
                    };
                    Action::Nothing
                } else if p.key == Key::Down {
                    let item_count = items.len() as i32;
                    self.scroll_offset = if self.scroll_offset + 1 < item_count - 1 {
                        self.scroll_offset + 1
                    } else {
                        item_count - 1
                    };
                    Action::Nothing
                } else if p.key == Key::Tab {
                    self.focused_field = match self.focused_field {
                        FocusedField::Match => FocusedField::Rename,
                        FocusedField::Rename => FocusedField::Match,
                    };
                    Action::Nothing
                } else if p.key == Key::Enter {
                    if settings.prevent_delete {
                        let m = Matcher::from_field(self.match_field.value.as_str());
                        match check_preflight_safety(items, &m, self.rename_field.value.as_str()) {
                            Err(v) => {
                                self.modal = Modal::Blocked(v);
                                return Action::Nothing;
                            },
                            Ok(()) => {},
                        }
                    }
                    if settings.confirm {
                        self.confirm_choice = ConfirmChoice::Yes;
                        self.modal = Modal::Confirm;
                        return Action::Nothing;
                    }
                    Action::Rename
                } else if p.key == Key::Left || p.key == Key::Right || p.key == Key::Home || p.key
                    == Key::End || p.key == Key::Backspace || p.key == Key::Delete || (
                matches!(p.key, Key::Char(_)) && !p.control && !p.alt && !p.other_modifiers) {
                    self.edit(p.key);
                    Action::Nothing
                } else {
                    Action::Nothing
                }
            },
        }
    }
}

} // verus!
