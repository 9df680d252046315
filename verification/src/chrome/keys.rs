//! Keyboard input of the URL bar.

use vstd::prelude::*;

use crate::chrome::state::{ChromeState, ChromeView};
use crate::text::{
    byte_len, contains_text, drop_controls, has_prefix, join2, occurs, printable, same_text, trim,
    trimmed,
};

verus! {

/// The keys that have a meaning of their own in the URL bar.
#[derive(Debug, Clone, Copy, PartialEq, Eq, Structural)]
pub enum NamedKey {
    Enter,
    Escape,
    ArrowUp,
    ArrowDown,
    ArrowLeft,
    ArrowRight,
    Backspace,
    Delete,
    Home,
    End,
    /// Any other key with a name.
    Other,
}

/// A key press.
#[derive(Debug, Clone)]
pub enum Key {
    /// A key with a name.
    Named(NamedKey),
    /// A key that stands for characters.
    Character(String),
    /// A key the keyboard layout does not know.
    Unidentified,
}

/// What a [`Key`] is.
pub enum KeyView {
    Named(NamedKey),
    Character(Seq<char>),
    Unidentified,
}

impl View for Key {
    type V = KeyView;

    open spec fn view(&self) -> KeyView {
        match self {
            Key::Named(k) => KeyView::Named(*k),
            Key::Character(s) => KeyView::Character(s@),
            Key::Unidentified => KeyView::Unidentified,
        }
    }
}

/// The modifier keys held during a key press.
#[derive(Debug, Clone, Copy, PartialEq, Eq, Structural)]
pub struct ModifiersState {
    pub control: bool,
    pub shift: bool,
}

/// What the caller has to do after a key press.
#[derive(Debug)]
pub enum ChromeKeyAction {
    /// Navigate to the address.
    Navigate(String),
    /// Load the page again.
    Reload,
    /// Go back one entry in session history.
    Back,
    /// Put the selected text on the clipboard.
    Copy,
    /// Put the selected text on the clipboard and take it out of the bar.
    Cut,
    /// Paste from the clipboard with [`ChromeState::paste_text`].
    Paste,
    /// Nothing but a redraw.
    Handled,
    /// The key was not for the URL bar.
    Ignored,
}

/// What a [`ChromeKeyAction`] asks for.
pub enum ActionView {
    Navigate(Seq<char>),
    Reload,
    Back,
    Copy,
    Cut,
    Paste,
    Handled,
    Ignored,
}

impl View for ChromeKeyAction {
    type V = ActionView;

    open spec fn view(&self) -> ActionView {
        match self {
            ChromeKeyAction::Navigate(u) => ActionView::Navigate(u@),
            ChromeKeyAction::Reload => ActionView::Reload,
            ChromeKeyAction::Back => ActionView::Back,
            ChromeKeyAction::Copy => ActionView::Copy,
            ChromeKeyAction::Cut => ActionView::Cut,
            ChromeKeyAction::Paste => ActionView::Paste,
            ChromeKeyAction::Handled => ActionView::Handled,
            ChromeKeyAction::Ignored => ActionView::Ignored,
        }
    }
}

impl ModifiersState {
    /// No modifier held.
    pub fn empty() -> (m: ModifiersState)
        ensures
            m == (ModifiersState { control: false, shift: false }),
    {
        ModifiersState { control: false, shift: false }
    }
}

/// An address completed with the `mizu` scheme where it names none.
pub open spec fn with_scheme(url: Seq<char>) -> Seq<char> {
    if url.len() != 0 && !occurs(url, "://"@) && !"about:"@.is_prefix_of(url) {
        "mizu://"@ + url
    } else {
        url
    }
}

impl ChromeView {
    /// What Enter goes to: the picked suggestion, else the text with its
    /// inline completion, else the text without surrounding white space.
    pub open spec fn entered(self) -> Seq<char> {
        match (self.selected_suggestion, self.inline_completion) {
            (Some(i), _) => if i < self.suggestions.len() {
                self.suggestions[i].url
            } else {
                trimmed(self.url)
            },
            (None, Some(inline)) => self.url + inline,
            (None, None) => trimmed(self.url),
        }
    }

    /// The bar after its suggestions and its focus are gone.
    pub open spec fn dismissed(self) -> ChromeView {
        ChromeView {
            selection: None,
            focused: false,
            suggestions: Seq::empty(),
            selected_suggestion: None,
            inline_completion: None,
            ..self
        }
    }

    /// The suggestion picked by one step up: the list wraps through "none".
    pub open spec fn suggestion_up(self) -> Option<int> {
        match self.selected_suggestion {
            Some(i) => if i > 0 {
                Some(i - 1)
            } else {
                None
            },
            None => Some(self.suggestions.len() - 1),
        }
    }

    /// The suggestion picked by one step down: the list wraps through "none".
    pub open spec fn suggestion_down(self) -> Option<int> {
        match self.selected_suggestion {
            Some(i) => if i + 1 < self.suggestions.len() {
                Some(i + 1)
            } else {
                None
            },
            None => Some(0),
        }
    }

    /// Typed text: what is printable of it goes in.
    pub open spec fn typed(self, text: Option<Seq<char>>) -> (ChromeView, ActionView) {
        match text {
            Some(t) => if printable(t).len() != 0 {
                (self.inserted(printable(t)), ActionView::Handled)
            } else {
                (self, ActionView::Ignored)
            },
            None => (self, ActionView::Ignored),
        }
    }

    /// The state after a key press, and what the caller has to do.
    pub open spec fn key_pressed(
        self,
        key: KeyView,
        text: Option<Seq<char>>,
        mods: ModifiersState,
    ) -> (ChromeView, ActionView) {
        match key {
            KeyView::Named(NamedKey::Enter) => {
                let target = with_scheme(self.entered());
                (
                    ChromeView {
                        url: target,
                        cursor: byte_len(target) as int,
                        ..self.dismissed()
                    },
                    ActionView::Navigate(target),
                )
            },
            KeyView::Named(NamedKey::Escape) => (self.dismissed(), ActionView::Handled),
            KeyView::Named(NamedKey::ArrowUp) => if self.suggestions.len() == 0 {
                (self, ActionView::Ignored)
            } else {
                (
                    ChromeView { selected_suggestion: self.suggestion_up(), ..self },
                    ActionView::Handled,
                )
            },
            KeyView::Named(NamedKey::ArrowDown) => if self.suggestions.len() == 0 {
                (self, ActionView::Ignored)
            } else {
                (
                    ChromeView { selected_suggestion: self.suggestion_down(), ..self },
                    ActionView::Handled,
                )
            },
            KeyView::Named(NamedKey::Backspace) => (self.deleted_backward(), ActionView::Handled),
            KeyView::Named(NamedKey::Delete) => (self.deleted_forward(), ActionView::Handled),
            KeyView::Named(NamedKey::ArrowLeft) => (
                self.moved_left(mods.shift),
                ActionView::Handled,
            ),
            KeyView::Named(NamedKey::ArrowRight) => (
                self.moved_right(mods.shift),
                ActionView::Handled,
            ),
            KeyView::Named(NamedKey::Home) => (self.moved(0, mods.shift), ActionView::Handled),
            KeyView::Named(NamedKey::End) => (
                self.moved(byte_len(self.url) as int, mods.shift),
                ActionView::Handled,
            ),
            KeyView::Character(c) if mods.control => if c == "a"@ || c == "A"@ {
                (self.all_selected(), ActionView::Handled)
            } else if c == "c"@ || c == "C"@ {
                (self, ActionView::Copy)
            } else if c == "x"@ || c == "X"@ {
                (self, ActionView::Cut)
            } else if c == "v"@ || c == "V"@ {
                (self, ActionView::Paste)
            } else {
                (self, ActionView::Ignored)
            },
            _ => self.typed(text),
        }
    }

    /// When the bar can take a key: what it edits lies between characters.
    pub open spec fn accepts_key(
        self,
        key: KeyView,
        text: Option<Seq<char>>,
        mods: ModifiersState,
    ) -> bool {
        match key {
            KeyView::Named(NamedKey::Enter) | KeyView::Named(NamedKey::Escape)
            | KeyView::Named(NamedKey::ArrowUp) | KeyView::Named(NamedKey::ArrowDown)
            | KeyView::Named(NamedKey::ArrowLeft) | KeyView::Named(NamedKey::ArrowRight)
            | KeyView::Named(NamedKey::Home) | KeyView::Named(NamedKey::End) => true,
            KeyView::Named(NamedKey::Backspace) => self.can_delete_backward(),
            KeyView::Named(NamedKey::Delete) => self.can_delete_forward(),
            KeyView::Character(c) if mods.control => true,
            _ => (text matches Some(t) && printable(t).len() != 0) ==> self.can_insert(),
        }
    }
}

impl ChromeState {
    /// What Enter goes to.
    fn entered_address(&self) -> (r: String)
        ensures
            r@ == self@.entered(),
    {
        match self.selected_suggestion {
            Some(i) => if i < self.suggestions.len() {
                self.suggestions[i].url.clone()
            } else {
                trim(self.url.as_str()).to_owned()
            },
            None => match &self.inline_completion {
                Some(inline) => join2(self.url.as_str(), inline.as_str()),
                None => trim(self.url.as_str()).to_owned(),
            },
        }
    }

    /// Drops the suggestions, the selection and the focus.
    fn dismiss(&mut self)
        ensures
            final(self)@ == old(self)@.dismissed(),
    {
        self.selection = None;
        self.focused = false;
        self.suggestions.clear();
        self.selected_suggestion = None;
        self.inline_completion = None;
        proof {
            assert(self@.suggestions =~= Seq::empty());
        }
    }

    /// Handles a key press in the focused URL bar. `text` is what the key
    /// typed, where it typed something.
    pub fn handle_key(&mut self, key: &Key, text: Option<&str>, mods: ModifiersState) -> (r:
        ChromeKeyAction)
        requires
            old(self)@.accepts_key(
                key@,
                match text {
                    Some(t) => Some(t@),
                    None => None,
                },
                mods,
            ),
        ensures
            (final(self)@, r@) == old(self)@.key_pressed(
                key@,
                match text {
                    Some(t) => Some(t@),
                    None => None,
                },
                mods,
            ),
            old(self)@.consistent() ==> final(self)@.consistent(),
    {
        match key {
            Key::Named(NamedKey::Enter) => {
                let mut target = self.entered_address();
                if !target.as_str().is_empty() && !contains_text(target.as_str(), "://")
                    && !has_prefix(target.as_str(), "about:") {
                    target = join2("mizu://", target.as_str());
                }
                self.dismiss();
                self.set_displayed_url(target.clone());
                ChromeKeyAction::Navigate(target)
            },
            Key::Named(NamedKey::Escape) => {
                self.dismiss();
                ChromeKeyAction::Handled
            },
            Key::Named(NamedKey::ArrowUp) => {
                if self.suggestions.len() == 0 {
                    return ChromeKeyAction::Ignored;
                }
                self.selected_suggestion = match self.selected_suggestion {
                    Some(i) => if i > 0 {
                        Some(i - 1)
                    } else {
                        None
                    },
                    None => Some(self.suggestions.len() - 1),
                };
                ChromeKeyAction::Handled
            },
            Key::Named(NamedKey::ArrowDown) => {
                if self.suggestions.len() == 0 {
                    return ChromeKeyAction::Ignored;
                }
                self.selected_suggestion = match self.selected_suggestion {
                    Some(i) => if i < self.suggestions.len() - 1 {
                        Some(i + 1)
                    } else {
                        None
                    },
                    None => Some(0),
                };
                ChromeKeyAction::Handled
            },
            Key::Named(NamedKey::Backspace) => {
                self.delete_backward();
                ChromeKeyAction::Handled
            },
            Key::Named(NamedKey::Delete) => {
                self.delete_forward();
                ChromeKeyAction::Handled
            },
            Key::Named(NamedKey::ArrowLeft) => {
                self.move_left(mods.shift);
                ChromeKeyAction::Handled
            },
            Key::Named(NamedKey::ArrowRight) => {
                self.move_right(mods.shift);
                ChromeKeyAction::Handled
            },
            Key::Named(NamedKey::Home) => {
                self.move_to_start(mods.shift);
                ChromeKeyAction::Handled
            },
            Key::Named(NamedKey::End) => {
                self.move_to_end(mods.shift);
                ChromeKeyAction::Handled
            },
            Key::Character(c) if mods.control => {
                let c = c.as_str();
                if same_text(c, "a") || same_text(c, "A") {
                    self.select_all();
                    ChromeKeyAction::Handled
                } else if same_text(c, "c") || same_text(c, "C") {
                    ChromeKeyAction::Copy
                } else if same_text(c, "x") || same_text(c, "X") {
                    ChromeKeyAction::Cut
                } else if same_text(c, "v") || same_text(c, "V") {
                    ChromeKeyAction::Paste
                } else {
                    ChromeKeyAction::Ignored
                }
            },
            _ => {
                if let Some(t) = text {
                    let shown = drop_controls(t);
                    if !shown.as_str().is_empty() {
                        self.insert_text(shown.as_str());
                        return ChromeKeyAction::Handled;
                    }
                }
                ChromeKeyAction::Ignored
            },
        }
    }
}

} // verus!
