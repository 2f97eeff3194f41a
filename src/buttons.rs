use vstd::prelude::*;

use crate::error::AppError;
use crate::ids::same_text;

verus! {

/// Whether `c` is a lowercase hexadecimal digit.
pub open spec fn is_lower_hex(c: char) -> bool {
    ('0' <= c && c <= '9') || ('a' <= c && c <= 'f')
}

/// Whether `s` is a UUID in hyphenated form: 36 characters, hyphens at
/// positions 8, 13, 18 and 23, lowercase hexadecimal digits elsewhere.
pub open spec fn is_button_id(s: Seq<char>) -> bool {
    &&& s.len() == 36
    &&& forall|i: int|
        0 <= i < 36 ==> if i == 8 || i == 13 || i == 18 || i == 23 {
            s[i] == '-'
        } else {
            is_lower_hex(#[trigger] s[i])
        }
}

/// Relies on uuid's `Uuid::new_v4` for a random identifier and on its
/// `Display`, which writes the lowercase hyphenated form.
#[verifier::external_body]
fn fresh_button_id() -> (r: String)
    ensures
        is_button_id(r@),
{
    uuid::Uuid::new_v4().to_string()
}

/// A named shortcut that sends a command line to the focused terminal.
#[derive(Debug, Clone)]
pub struct CommandButton {
    pub id: String,
    pub name: String,
    pub command: String,
}

impl PartialEq for CommandButton {
    fn eq(&self, o: &CommandButton) -> (r: bool) {
        self.id == o.id && self.name == o.name && self.command == o.command
    }
}

impl vstd::std_specs::cmp::PartialEqSpecImpl for CommandButton {
    open spec fn obeys_eq_spec() -> bool {
        true
    }

    open spec fn eq_spec(&self, o: &CommandButton) -> bool {
        self.id@ == o.id@ && self.name@ == o.name@ && self.command@ == o.command@
    }
}

impl CommandButton {
    /// A button with a freshly drawn random identifier.
    pub fn new(name: String, command: String) -> (r: Self)
        ensures
            r.name == name,
            r.command == command,
            is_button_id(r.id@),
    {
        CommandButton { id: fresh_button_id(), name, command }
    }

    /// A button with a given identifier, as when loading stored buttons.
    pub fn with_id(id: String, name: String, command: String) -> (r: Self)
        ensures
            r.id == id,
            r.name == name,
            r.command == command,
    {
        CommandButton { id, name, command }
    }
}

/// `bs` without the buttons whose identifier is `id`, order kept.
pub open spec fn without_id(bs: Seq<CommandButton>, id: Seq<char>) -> Seq<CommandButton>
    decreases bs.len(),
{
    if bs.len() == 0 {
        bs
    } else {
        let rest = without_id(bs.drop_last(), id);
        if bs.last().id@ == id {
            rest
        } else {
            rest.push(bs.last())
        }
    }
}

/// Whether some button in `bs` has the identifier `id`.
pub open spec fn has_id(bs: Seq<CommandButton>, id: Seq<char>) -> bool {
    exists|i: int| 0 <= i < bs.len() && #[trigger] bs[i].id@ == id
}

/// `i` is the first position in `bs` whose button has the identifier `id`.
pub open spec fn first_with_id(bs: Seq<CommandButton>, id: Seq<char>, i: int) -> bool {
    &&& 0 <= i < bs.len()
    &&& bs[i].id@ == id
    &&& forall|j: int| 0 <= j < i ==> #[trigger] bs[j].id@ != id
}

/// The sidebar's buttons, in the order they were added.
#[derive(Debug, Clone)]
pub struct ButtonManager {
    buttons: Vec<CommandButton>,
}

impl ButtonManager {
    /// The buttons, in order.
    pub closed spec fn buttons(&self) -> Seq<CommandButton> {
        self.buttons@
    }

    /// An empty registry.
    pub fn new() -> (r: Self)
        ensures
            r.buttons() == Seq::<CommandButton>::empty(),
    {
        ButtonManager { buttons: Vec::new() }
    }

    /// A registry holding `buttons`, in that order.
    pub fn from_buttons(buttons: Vec<CommandButton>) -> (r: Self)
        ensures
            r.buttons() == buttons@,
    {
        ButtonManager { buttons }
    }

    fn find(&self, id: &str) -> (r: Option<usize>)
        ensures
            match r {
                Some(i) => first_with_id(self.buttons(), id@, i as int),
                None => !has_id(self.buttons(), id@),
            },
    {
        let mut i: usize = 0;
        while i < self.buttons.len()
            invariant
                i <= self.buttons.len(),
                forall|j: int| 0 <= j < i ==> #[trigger] self.buttons@[j].id@ != id@,
            decreases self.buttons.len() - i,
        {
            if same_text(&self.buttons[i].id, id) {
                return Some(i);
            }
            i = i + 1;
        }
        None
    }

    /// Appends a new button with a fresh identifier, which is returned.
    pub fn add_button(&mut self, name: String, command: String) -> (r: String)
        ensures
            is_button_id(r@),
            final(self).buttons() == old(self).buttons().push(
                CommandButton { id: r, name: name, command: command },
            ),
    {
        let button = CommandButton::new(name, command);
        let id = button.id.clone();
        self.buttons.push(button);
        id
    }

    /// Renames the first button with this identifier and replaces its
    /// command; `ButtonNotFound` when there is none.
    pub fn update_button(&mut self, id: &str, name: String, command: String) -> (r: Result<
        (),
        AppError,
    >)
        ensures
            match r {
                Ok(()) => exists|i: int|
                    first_with_id(old(self).buttons(), id@, i) && final(self).buttons()
                        == old(self).buttons().update(
                        i,
                        CommandButton { id: old(self).buttons()[i].id, name: name, command: command },
                    ),
                Err(AppError::ButtonNotFound(s)) => {
                    &&& !has_id(old(self).buttons(), id@)
                    &&& s@ == id@
                    &&& final(self).buttons() == old(self).buttons()
                },
                Err(_) => false,
            },
    {
        match self.find(id) {
            Some(i) => {
                let kept = self.buttons[i].id.clone();
                self.buttons.set(i, CommandButton { id: kept, name, command });
                Ok(())
            },
            None => Err(AppError::ButtonNotFound(id.to_owned())),
        }
    }

    /// Removes every button with this identifier; `ButtonNotFound` when
    /// there is none.
    pub fn delete_button(&mut self, id: &str) -> (r: Result<(), AppError>)
        ensures
            final(self).buttons() == without_id(old(self).buttons(), id@),
            match r {
                Ok(()) => has_id(old(self).buttons(), id@),
                Err(AppError::ButtonNotFound(s)) => !has_id(old(self).buttons(), id@) && s@
                    == id@,
                Err(_) => false,
            },
    {
        let ghost orig = self.buttons@;
        let mut i: usize = 0;
        let ghost mut k: int = 0;
        let mut found = false;
        while i < self.buttons.len()
            invariant
                0 <= k <= orig.len(),
                self.buttons@ == without_id(orig.subrange(0, k), id@) + orig.subrange(
                    k,
                    orig.len() as int,
                ),
                i == without_id(orig.subrange(0, k), id@).len(),
                found == has_id(orig.subrange(0, k), id@),
            decreases self.buttons.len() - i,
        {
            let ghost done = without_id(orig.subrange(0, k), id@);
            assert(orig.subrange(0, k + 1).drop_last() =~= orig.subrange(0, k));
            assert(orig.subrange(0, k + 1).last() == orig[k]);
            assert(self.buttons@[i as int] == orig[k]);
            if same_text(&self.buttons[i].id, id) {
                self.buttons.remove(i);
                found = true;
                assert(self.buttons@ =~= done + orig.subrange(k + 1, orig.len() as int));
                assert(has_id(orig.subrange(0, k + 1), id@)) by {
                    assert(orig.subrange(0, k + 1)[k].id@ == id@);
                }
            } else {
                i = i + 1;
                assert(self.buttons@ =~= done.push(orig[k]) + orig.subrange(
                    k + 1,
                    orig.len() as int,
                ));
                assert(has_id(orig.subrange(0, k + 1), id@) == has_id(orig.subrange(0, k), id@))
                    by {
                    if has_id(orig.subrange(0, k + 1), id@) {
                        let j = choose|j: int|
                            0 <= j < k + 1 && #[trigger] orig.subrange(0, k + 1)[j].id@ == id@;
                        assert(orig.subrange(0, k)[j].id@ == id@);
                    }
                    if has_id(orig.subrange(0, k), id@) {
                        let j = choose|j: int|
                            0 <= j < k && #[trigger] orig.subrange(0, k)[j].id@ == id@;
                        assert(orig.subrange(0, k + 1)[j].id@ == id@);
                    }
                }
            }
            proof {
                k = k + 1;
            }
        }
        assert(orig.subrange(0, k) =~= orig);
        assert(self.buttons@ =~= without_id(orig, id@));
        if found {
            Ok(())
        } else {
            Err(AppError::ButtonNotFound(id.to_owned()))
        }
    }

    /// The first button with this identifier.
    pub fn get_button(&self, id: &str) -> (r: Option<&CommandButton>)
        ensures
            match r {
                Some(b) => exists|i: int|
                    first_with_id(self.buttons(), id@, i) && self.buttons()[i] == *b,
                None => !has_id(self.buttons(), id@),
            },
    {
        match self.find(id) {
            Some(i) => Some(&self.buttons[i]),
            None => None,
        }
    }

    /// All buttons, in order.
    pub fn get_buttons(&self) -> (r: &[CommandButton])
        ensures
            r@ == self.buttons(),
    {
        self.buttons.as_slice()
    }

    /// The number of buttons.
    pub fn count(&self) -> (r: usize)
        ensures
            r == self.buttons().len(),
    {
        self.buttons.len()
    }
}

impl Default for ButtonManager {
    fn default() -> (r: Self)
        ensures
            r.buttons() == Seq::<CommandButton>::empty(),
    {
        ButtonManager::new()
    }
}

/// How the terminal view is drawn.
#[derive(Debug, Clone)]
pub struct TerminalConfig {
    pub cursor_blink: bool,
    pub background_color: String,
    pub foreground_color: String,
}

impl Default for TerminalConfig {
    fn default() -> (r: Self)
        ensures
            r.cursor_blink,
            r.background_color@ == "#1e1e1e"@,
            r.foreground_color@ == "#d4d4d4"@,
    {
        TerminalConfig {
            cursor_blink: true,
            background_color: "#1e1e1e".to_owned(),
            foreground_color: "#d4d4d4".to_owned(),
        }
    }
}

/// How the sidebar is laid out.
#[derive(Debug, Clone)]
pub struct SidebarConfig {
    pub width: u32,
}

impl Default for SidebarConfig {
    fn default() -> (r: Self)
        ensures
            r.width == 200,
    {
        SidebarConfig { width: 200 }
    }
}

/// Everything the application stores between runs.
#[derive(Debug, Clone)]
pub struct AppState {
    pub button_manager: ButtonManager,
    pub terminal_config: TerminalConfig,
    pub sidebar_config: SidebarConfig,
}

impl AppState {
    /// No buttons and the default terminal and sidebar settings.
    pub fn new() -> (r: Self)
        ensures
            r.button_manager.buttons() == Seq::<CommandButton>::empty(),
            r.terminal_config.cursor_blink,
            r.terminal_config.background_color@ == "#1e1e1e"@,
            r.terminal_config.foreground_color@ == "#d4d4d4"@,
            r.sidebar_config.width == 200,
    {
        AppState {
            button_manager: ButtonManager::new(),
            terminal_config: TerminalConfig::default(),
            sidebar_config: SidebarConfig::default(),
        }
    }
}

impl Default for AppState {
    fn default() -> (r: Self)
        ensures
            r.button_manager.buttons() == Seq::<CommandButton>::empty(),
            r.terminal_config.cursor_blink,
            r.sidebar_config.width == 200,
    {
        AppState::new()
    }
}

} // verus!
