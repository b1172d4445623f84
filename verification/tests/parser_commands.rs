use passman::commands::{Command, Field, PasswordParams, VaultCommand};
use passman::error::AppError;
use passman::help::filter_help;
use passman::parser::{parse_cmd, parse_confirmation, parse_usize, parse_vault_cmd,
    parse_vault_field, tokenize};
use passman::passwords::generate_pwd;
use passman::vectors::{get_opt_str, get_str};

#[test]
fn tokenize_splits_on_blank_runs() {
    assert_eq!(tokenize("  vault  open   work \n"), vec!["vault", "open", "work"]);
    assert_eq!(tokenize(""), Vec::<String>::new());
    assert_eq!(tokenize("   \t "), Vec::<String>::new());
    assert_eq!(tokenize("one"), vec!["one"]);
}

#[test]
fn parse_simple_commands() {
    assert_eq!(parse_cmd("exit"), Ok(Command::Exit));
    assert_eq!(parse_cmd("quit"), Ok(Command::Exit));
    assert_eq!(parse_cmd("q"), Ok(Command::Exit));
    assert_eq!(parse_cmd("clear"), Ok(Command::Clear));
    assert_eq!(parse_cmd("cls"), Ok(Command::Clear));
    assert_eq!(parse_cmd("panic"), Ok(Command::Panic));
    assert_eq!(parse_cmd("help"), Ok(Command::Help(None)));
    assert_eq!(parse_cmd("help vault"), Ok(Command::Help(Some("vault".to_string()))));
    assert_eq!(parse_cmd(""), Err(AppError::InvalidCommand));
    assert_eq!(parse_cmd("frobnicate"), Err(AppError::InvalidCommand));
}

#[test]
fn parse_analyze_commands() {
    assert_eq!(parse_cmd("analyze hunter2"), Ok(Command::Analyze("hunter2".to_string())));
    assert_eq!(parse_cmd("score hunter2"), Ok(Command::Analyze("hunter2".to_string())));
    assert_eq!(parse_cmd("analyze -paste"), Ok(Command::AnalyzePaste));
    assert_eq!(parse_cmd("analyze -p"), Ok(Command::AnalyzePaste));
    assert_eq!(
        parse_cmd("analyze"),
        Err(AppError::MissingArgument("password".to_string()))
    );
}

#[test]
fn parse_generate_commands() {
    assert_eq!(
        parse_cmd("generate 12 -copy"),
        Ok(Command::Generate(PasswordParams { length: 12, avoid_ambiguous: false }, true))
    );
    assert_eq!(
        parse_cmd("gen -avoid-ambiguous"),
        Ok(Command::Generate(PasswordParams { length: 8, avoid_ambiguous: true }, false))
    );
    // an unreadable length falls back to the minimum
    assert_eq!(
        parse_cmd("generate lots"),
        Ok(Command::Generate(PasswordParams { length: 8, avoid_ambiguous: false }, false))
    );
}

#[test]
fn parse_vault_commands() {
    assert_eq!(
        parse_cmd("vault new work"),
        Ok(Command::Vault(VaultCommand::New("work".to_string())))
    );
    assert_eq!(
        parse_cmd("vlt open work"),
        Ok(Command::Vault(VaultCommand::Open("work".to_string())))
    );
    assert_eq!(parse_cmd("vault close"), Ok(Command::Vault(VaultCommand::Close)));
    assert_eq!(parse_cmd("vault list"), Ok(Command::Vault(VaultCommand::List)));
    assert_eq!(
        parse_cmd("vault show email -expose"),
        Ok(Command::Vault(VaultCommand::Show(Some("email".to_string()), true)))
    );
    assert_eq!(
        parse_cmd("vault show"),
        Ok(Command::Vault(VaultCommand::Show(None, false)))
    );
    assert_eq!(
        parse_cmd("vault add email"),
        Ok(Command::Vault(VaultCommand::Add("email".to_string())))
    );
    assert_eq!(
        parse_cmd("vault update email -password hunter3"),
        Ok(Command::Vault(VaultCommand::Update(
            "email".to_string(),
            Field::Password,
            "hunter3".to_string()
        )))
    );
    assert_eq!(
        parse_cmd("vault delete email"),
        Ok(Command::Vault(VaultCommand::Delete("email".to_string())))
    );
    assert_eq!(
        parse_cmd("vault copy email"),
        Ok(Command::Vault(VaultCommand::Copy("email".to_string(), Field::Password)))
    );
    assert_eq!(parse_cmd("vault destroy"), Ok(Command::Vault(VaultCommand::Destroy)));
    assert_eq!(parse_cmd("vault"), Err(AppError::InvalidCommand));
    assert_eq!(
        parse_cmd("vault new"),
        Err(AppError::MissingArgument("name".to_string()))
    );
    assert_eq!(
        parse_cmd("vault new ;bad"),
        Err(AppError::InvalidArgument("name".to_string()))
    );
}

#[test]
fn parse_vault_cmd_from_tokens() {
    let args = vec!["new", "work"];
    assert_eq!(
        parse_vault_cmd(&args, vec![]),
        Ok(Command::Vault(VaultCommand::New("work".to_string())))
    );
    let args = vec!["update", "email"];
    assert_eq!(
        parse_vault_cmd(&args, vec!["-user"]),
        Err(AppError::MissingArgument("value".to_string()))
    );
}

#[test]
fn parse_field_names() {
    assert_eq!(parse_vault_field("-username"), Ok(Field::Username));
    assert_eq!(parse_vault_field("-NAME"), Ok(Field::Username));
    assert_eq!(parse_vault_field("-User"), Ok(Field::Username));
    assert_eq!(parse_vault_field("-password"), Ok(Field::Password));
    assert_eq!(parse_vault_field("-PASS"), Ok(Field::Password));
    assert_eq!(parse_vault_field("-pwd"), Ok(Field::Password));
    assert_eq!(
        parse_vault_field("-nope"),
        Err(AppError::InvalidArgument("-nope".to_string()))
    );
}

#[test]
fn parse_confirmation_answers() {
    assert_eq!(parse_confirmation("y"), Ok(true));
    assert_eq!(parse_confirmation("YES"), Ok(true));
    assert_eq!(parse_confirmation("n"), Ok(false));
    assert_eq!(parse_confirmation("No"), Ok(false));
    assert_eq!(
        parse_confirmation("maybe"),
        Err(AppError::Other("Invalid choice".to_string()))
    );
}

#[test]
fn parse_usize_values() {
    assert_eq!(parse_usize("0"), Some(0));
    assert_eq!(parse_usize("42"), Some(42));
    assert_eq!(parse_usize("+42"), Some(42));
    assert_eq!(parse_usize("007"), Some(7));
    assert_eq!(parse_usize(""), None);
    assert_eq!(parse_usize("+"), None);
    assert_eq!(parse_usize("4x"), None);
    assert_eq!(parse_usize("-4"), None);
    assert_eq!(parse_usize("99999999999999999999999999"), None);
}

#[test]
fn generated_passwords_fit_the_request() {
    let pwd = generate_pwd(PasswordParams { length: 20, avoid_ambiguous: false }).unwrap();
    assert_eq!(pwd.chars().count(), 20);

    let plain = generate_pwd(PasswordParams { length: 30, avoid_ambiguous: true }).unwrap();
    assert_eq!(plain.chars().count(), 30);
    for c in plain.chars() {
        assert!(!"B8G6I1l0OQDS5Z2".contains(c), "ambiguous character {c} generated");
    }

    let err = generate_pwd(PasswordParams { length: 4, avoid_ambiguous: false }).unwrap_err();
    assert_eq!(
        err,
        AppError::Other("Password length must be between 8 and 128 characters".to_string())
    );
    assert!(generate_pwd(PasswordParams { length: 128, avoid_ambiguous: false }).is_err());
    assert!(generate_pwd(PasswordParams { length: 127, avoid_ambiguous: false }).is_ok());
}

#[test]
fn token_vector_helpers() {
    let toks = vec!["a", "b"];
    assert_eq!(get_str(&toks, 0), "a");
    assert_eq!(get_str(&toks, 1), "b");
    assert_eq!(get_opt_str(&toks, 1), Some("b".to_string()));
    assert_eq!(get_opt_str(&toks, 2), None);
}

#[test]
fn error_messages() {
    assert_eq!(AppError::InvalidCommand.message(), "Invalid command");
    assert_eq!(
        AppError::InvalidArgument("name".to_string()).message(),
        "Invalid argument: <name>"
    );
    assert_eq!(
        AppError::MissingArgument("value".to_string()).message(),
        "Missing argument: <value>"
    );
    assert_eq!(AppError::Other("boom".to_string()).message(), "Error: boom");
    assert_eq!(Field::Username.label(), "username");
    assert_eq!(Field::Password.label(), "password");
}


#[test]
fn help_filter_selects_matching_lines() {
    let text = "vault open <name> > unlocks a vault\nvault close > locks the vault\ngenerate > makes a password\nplain line without mark";
    assert_eq!(
        filter_help(text, "vault"),
        Some("vault open <name> > unlocks a vault\nvault close > locks the vault".to_string())
    );
    assert_eq!(
        filter_help(text, "GENERATE"),
        Some("generate > makes a password".to_string())
    );
    assert_eq!(filter_help(text, "frobnicate"), None);
    // only the command part, before the mark, is searched
    assert_eq!(filter_help(text, "password"), None);
    // a line without the mark never matches
    assert_eq!(filter_help("plain", "plain"), None);
    // an empty query selects every marked line
    assert_eq!(
        filter_help("a > b", ""),
        Some("a > b".to_string())
    );
}
