//! The command vocabulary the command-line front end parses into.

use vstd::prelude::*;

verus! {

/// The mathematical value of a generation request.
pub ghost struct PasswordParamsView {
    pub length: int,
    pub avoid_ambiguous: bool,
}

/// The mathematical value of a vault subcommand.
pub ghost enum VaultCommandView {
    New(Seq<char>),
    Open(Seq<char>),
    Close,
    List,
    Show(Option<Seq<char>>, bool),
    Add(Seq<char>),
    Update(Seq<char>, Field, Seq<char>),
    Delete(Seq<char>),
    Copy(Seq<char>, Field),
    Destroy,
}

/// The mathematical value of a command.
pub ghost enum CommandView {
    Help(Option<Seq<char>>),
    Clear,
    Exit,
    Vault(VaultCommandView),
    Panic,
    Analyze(Seq<char>),
    AnalyzePaste,
    Generate(PasswordParamsView, bool),
}

/// The two entry fields an update or a copy may address.
#[derive(Debug, Clone, PartialEq)]
pub enum Field {
    Username,
    Password,
}

impl Field {
    /// The field's lower-case label.
    pub fn label(&self) -> (r: String)
        ensures
            self is Username ==> r@ == "username"@,
            self is Password ==> r@ == "password"@,
    {
        match self {
            Field::Username => "username".to_owned(),
            Field::Password => "password".to_owned(),
        }
    }
}

impl View for PasswordParams {
    type V = PasswordParamsView;

    open spec fn view(&self) -> PasswordParamsView {
        PasswordParamsView { length: self.length as int, avoid_ambiguous: self.avoid_ambiguous }
    }
}

impl View for VaultCommand {
    type V = VaultCommandView;

    open spec fn view(&self) -> VaultCommandView {
        match self {
            VaultCommand::New(n) => VaultCommandView::New(n@),
            VaultCommand::Open(n) => VaultCommandView::Open(n@),
            VaultCommand::Close => VaultCommandView::Close,
            VaultCommand::List => VaultCommandView::List,
            VaultCommand::Show(f, e) => VaultCommandView::Show(
                match f {
                    Some(ff) => Some(ff@),
                    None => None,
                },
                *e,
            ),
            VaultCommand::Add(n) => VaultCommandView::Add(n@),
            VaultCommand::Update(n, f, v) => VaultCommandView::Update(n@, *f, v@),
            VaultCommand::Delete(n) => VaultCommandView::Delete(n@),
            VaultCommand::Copy(n, f) => VaultCommandView::Copy(n@, *f),
            VaultCommand::Destroy => VaultCommandView::Destroy,
        }
    }
}

impl View for Command {
    type V = CommandView;

    open spec fn view(&self) -> CommandView {
        match self {
            Command::Help(a) => CommandView::Help(
                match a {
                    Some(s) => Some(s@),
                    None => None,
                },
            ),
            Command::Clear => CommandView::Clear,
            Command::Exit => CommandView::Exit,
            Command::Vault(c) => CommandView::Vault(c@),
            Command::Panic => CommandView::Panic,
            Command::Analyze(p) => CommandView::Analyze(p@),
            Command::AnalyzePaste => CommandView::AnalyzePaste,
            Command::Generate(p, c) => CommandView::Generate(p@, *c),
        }
    }
}

/// What a password generation request asks for.
#[derive(Debug, Clone, PartialEq)]
pub struct PasswordParams {
    pub length: usize,
    pub avoid_ambiguous: bool,
}

/// One top-level command.
#[derive(Debug, Clone, PartialEq)]
pub enum Command {
    Help(Option<String>),
    Clear,
    Exit,
    Vault(VaultCommand),
    Panic,
    Analyze(String),
    AnalyzePaste,
    Generate(PasswordParams, bool),
}

/// One vault subcommand.
#[derive(Debug, Clone, PartialEq)]
pub enum VaultCommand {
    New(String),
    Open(String),
    Close,
    List,
    Show(Option<String>, bool),
    Add(String),
    Update(String, Field, String),
    Delete(String),
    Copy(String, Field),
    Destroy,
}

} // verus!
