use vstd::prelude::*;

verus! {

/// A key of the terminal front end, as the controls read it.
#[derive(Clone, Copy, Debug, PartialEq, Eq, Structural)]
pub enum TerminalKey {
    Char(char),
    Esc,
    Enter,
    Backspace,
    Function(u8),
    Other,
}

/// A key press: the key, whether Control was held, and whether no modifier
/// other than Shift was held.
#[derive(Clone, Copy, Debug, PartialEq, Eq, Structural)]
pub struct TerminalKeyPress {
    pub key: TerminalKey,
    pub control: bool,
    pub plain_or_shift: bool,
}

/// What a key press asks the terminal front end to do.
#[derive(Clone, Copy, Debug, PartialEq, Eq, Structural)]
pub enum TerminalCommand {
    Quit,
    ToggleTraining,
    RequestTrainingChunk,
    ToggleBackend,
    ToggleNetworkValues,
    ExportCheckpoint,
    ImportCheckpoint,
    Reset,
    Generate,
    RaiseTemperature,
    LowerTemperature,
    DeletePrefixCharacter,
    TypePrefixCharacter(char),
    Ignore,
}

/// The command of each key: Control-C, `q` and Esc quit; `s` starts or
/// pauses training, `c` trains one chunk, `b` switches the backend, `v`
/// shows parameter summaries, F5 and F6 save and load the checkpoint, `r`
/// resets, `g` and Enter generate, `+`/`=` and `-` change the temperature,
/// Backspace deletes from the prefix, and any other character typed alone or
/// with Shift is added to the prefix.
pub open spec fn command_for(press: TerminalKeyPress) -> TerminalCommand {
    if press.control && press.key == TerminalKey::Char('c') {
        TerminalCommand::Quit
    } else {
        match press.key {
            TerminalKey::Esc => TerminalCommand::Quit,
            TerminalKey::Enter => TerminalCommand::Generate,
            TerminalKey::Backspace => TerminalCommand::DeletePrefixCharacter,
            TerminalKey::Function(n) => if n == 5 {
                TerminalCommand::ExportCheckpoint
            } else if n == 6 {
                TerminalCommand::ImportCheckpoint
            } else {
                TerminalCommand::Ignore
            },
            TerminalKey::Other => TerminalCommand::Ignore,
            TerminalKey::Char(c) => if c == 'q' {
                TerminalCommand::Quit
            } else if c == 's' {
                TerminalCommand::ToggleTraining
            } else if c == 'c' {
                TerminalCommand::RequestTrainingChunk
            } else if c == 'b' {
                TerminalCommand::ToggleBackend
            } else if c == 'v' {
                TerminalCommand::ToggleNetworkValues
            } else if c == 'r' {
                TerminalCommand::Reset
            } else if c == 'g' {
                TerminalCommand::Generate
            } else if c == '+' || c == '=' {
                TerminalCommand::RaiseTemperature
            } else if c == '-' {
                TerminalCommand::LowerTemperature
            } else if press.plain_or_shift {
                TerminalCommand::TypePrefixCharacter(c)
            } else {
                TerminalCommand::Ignore
            },
        }
    }
}

/// The command a key press asks for.
pub fn terminal_command(press: TerminalKeyPress) -> (command: TerminalCommand)
    ensures
        command == command_for(press),
{
    if press.control && press.key == TerminalKey::Char('c') {
        return TerminalCommand::Quit;
    }
    match press.key {
        TerminalKey::Esc => TerminalCommand::Quit,
        TerminalKey::Enter => TerminalCommand::Generate,
        TerminalKey::Backspace => TerminalCommand::DeletePrefixCharacter,
        TerminalKey::Function(n) => {
            if n == 5 {
                TerminalCommand::ExportCheckpoint
            } else if n == 6 {
                TerminalCommand::ImportCheckpoint
            } else {
                TerminalCommand::Ignore
            }
        },
        TerminalKey::Other => TerminalCommand::Ignore,
        TerminalKey::Char(c) => {
            if c == 'q' {
                TerminalCommand::Quit
            } else if c == 's' {
                TerminalCommand::ToggleTraining
            } else if c == 'c' {
                TerminalCommand::RequestTrainingChunk
            } else if c == 'b' {
                TerminalCommand::ToggleBackend
            } else if c == 'v' {
                TerminalCommand::ToggleNetworkValues
            } else if c == 'r' {
                TerminalCommand::Reset
            } else if c == 'g' {
                TerminalCommand::Generate
            } else if c == '+' || c == '=' {
                TerminalCommand::RaiseTemperature
            } else if c == '-' {
                TerminalCommand::LowerTemperature
            } else if press.plain_or_shift {
                TerminalCommand::TypePrefixCharacter(c)
            } else {
                TerminalCommand::Ignore
            }
        },
    }
}

/// The key map of the terminal, whatever modifiers are held: Esc and `q`
/// quit, and so does Control with `c`; without Control `c` trains one chunk;
/// `s` starts or pauses training, `b` switches the backend, `v` shows the
/// parameter summaries, `r` resets; `g` generates exactly as Enter does;
/// `+` and `=` raise the temperature and `-` lowers it; Backspace deletes,
/// F5 saves and F6 loads the checkpoint; any other character is typed into
/// the prefix when at most Shift is held and ignored otherwise.
pub proof fn lemma_terminal_key_map(control: bool, plain_or_shift: bool, c: char)
    ensures
        ({
            let press = |key: TerminalKey| TerminalKeyPress { key, control, plain_or_shift };
            &&& command_for(press(TerminalKey::Char('g'))) == TerminalCommand::Generate
            &&& command_for(press(TerminalKey::Enter)) == TerminalCommand::Generate
            &&& command_for(press(TerminalKey::Char('g'))) == command_for(press(TerminalKey::Enter))
            &&& command_for(press(TerminalKey::Esc)) == TerminalCommand::Quit
            &&& command_for(press(TerminalKey::Char('q'))) == TerminalCommand::Quit
            &&& command_for(press(TerminalKey::Char('c'))) == (if control {
                TerminalCommand::Quit
            } else {
                TerminalCommand::RequestTrainingChunk
            })
            &&& command_for(press(TerminalKey::Char('s'))) == TerminalCommand::ToggleTraining
            &&& command_for(press(TerminalKey::Char('b'))) == TerminalCommand::ToggleBackend
            &&& command_for(press(TerminalKey::Char('v'))) == TerminalCommand::ToggleNetworkValues
            &&& command_for(press(TerminalKey::Char('r'))) == TerminalCommand::Reset
            &&& command_for(press(TerminalKey::Char('+'))) == TerminalCommand::RaiseTemperature
            &&& command_for(press(TerminalKey::Char('='))) == TerminalCommand::RaiseTemperature
            &&& command_for(press(TerminalKey::Char('-'))) == TerminalCommand::LowerTemperature
            &&& command_for(press(TerminalKey::Backspace)) == TerminalCommand::DeletePrefixCharacter
            &&& command_for(press(TerminalKey::Function(5))) == TerminalCommand::ExportCheckpoint
            &&& command_for(press(TerminalKey::Function(6))) == TerminalCommand::ImportCheckpoint
            &&& command_for(press(TerminalKey::Other)) == TerminalCommand::Ignore
            &&& (c != 'q' && c != 's' && c != 'c' && c != 'b' && c != 'v' && c != 'r' && c != 'g' && c != '+'
                && c != '=' && c != '-') ==> command_for(press(TerminalKey::Char(c))) == (if plain_or_shift {
                TerminalCommand::TypePrefixCharacter(c)
            } else {
                TerminalCommand::Ignore
            })
        }),
{
}

} // verus!
