use sentence_gpt_rs_mlx::controls::{terminal_command, TerminalCommand, TerminalKey, TerminalKeyPress};

fn press(key: TerminalKey) -> TerminalKeyPress {
    TerminalKeyPress {
        key,
        control: false,
        plain_or_shift: true,
    }
}

#[test]
fn keys_map_to_commands() {
    assert_eq!(terminal_command(press(TerminalKey::Char('q'))), TerminalCommand::Quit);
    assert_eq!(terminal_command(press(TerminalKey::Esc)), TerminalCommand::Quit);
    assert_eq!(
        terminal_command(TerminalKeyPress {
            key: TerminalKey::Char('c'),
            control: true,
            plain_or_shift: false,
        }),
        TerminalCommand::Quit
    );
    assert_eq!(
        terminal_command(press(TerminalKey::Char('c'))),
        TerminalCommand::RequestTrainingChunk
    );
    assert_eq!(terminal_command(press(TerminalKey::Char('s'))), TerminalCommand::ToggleTraining);
    assert_eq!(terminal_command(press(TerminalKey::Char('b'))), TerminalCommand::ToggleBackend);
    assert_eq!(
        terminal_command(press(TerminalKey::Char('v'))),
        TerminalCommand::ToggleNetworkValues
    );
    assert_eq!(terminal_command(press(TerminalKey::Function(5))), TerminalCommand::ExportCheckpoint);
    assert_eq!(terminal_command(press(TerminalKey::Function(6))), TerminalCommand::ImportCheckpoint);
    assert_eq!(terminal_command(press(TerminalKey::Function(7))), TerminalCommand::Ignore);
    assert_eq!(terminal_command(press(TerminalKey::Char('r'))), TerminalCommand::Reset);
    assert_eq!(terminal_command(press(TerminalKey::Enter)), TerminalCommand::Generate);
    assert_eq!(terminal_command(press(TerminalKey::Char('='))), TerminalCommand::RaiseTemperature);
    assert_eq!(terminal_command(press(TerminalKey::Char('-'))), TerminalCommand::LowerTemperature);
    assert_eq!(
        terminal_command(press(TerminalKey::Backspace)),
        TerminalCommand::DeletePrefixCharacter
    );
}

#[test]
fn other_characters_type_into_the_prefix_without_modifiers() {
    assert_eq!(
        terminal_command(press(TerminalKey::Char('x'))),
        TerminalCommand::TypePrefixCharacter('x')
    );
    assert_eq!(
        terminal_command(TerminalKeyPress {
            key: TerminalKey::Char('x'),
            control: true,
            plain_or_shift: false,
        }),
        TerminalCommand::Ignore
    );
    assert_eq!(terminal_command(press(TerminalKey::Other)), TerminalCommand::Ignore);
}
