//! The command-line parser: from one input line to a [`Command`].
//!
//! A line splits on runs of blank characters into tokens; the first token
//! names the command, dash-led tokens are options, and the rest are
//! positional arguments. The whole grammar is written down as spec
//! functions, and the parser returns exactly what they denote.

use vstd::prelude::*;
use vstd::string::StrSliceExecFns;
use crate::commands::{Command, CommandView, Field, PasswordParams, PasswordParamsView,
    VaultCommand, VaultCommandView};
use crate::error::{AppError, AppErrorView};
use crate::text::{push_char, str_eq};
use crate::validation::{digit_char, valid_arg, PASSWORD_MIN_LEN};
use crate::vectors::{get_opt_str, get_str};

verus! {

/// A blank character: the token separators a terminal line carries.
pub open spec fn is_blank(c: char) -> bool {
    c == ' ' || c == '\t' || c == '\n' || c == '\r'
}

fn is_blank_char(c: char) -> (r: bool)
    ensures
        r == is_blank(c),
{
    c == ' ' || c == '\t' || c == '\n' || c == '\r'
}

/// The length of the token starting at position `i`.
pub open spec fn word_len_from(s: Seq<char>, i: int) -> int
    decreases s.len() - i,
    when 0 <= i <= s.len()
{
    if i >= s.len() || is_blank(s[i]) {
        0
    } else {
        1 + word_len_from(s, i + 1)
    }
}

proof fn lemma_word_len_from(s: Seq<char>, i: int)
    requires
        0 <= i <= s.len(),
    ensures
        0 <= word_len_from(s, i) <= s.len() - i,
        i < s.len() && !is_blank(s[i]) ==> word_len_from(s, i) >= 1,
    decreases s.len() - i,
{
    if i < s.len() && !is_blank(s[i]) {
        lemma_word_len_from(s, i + 1);
    }
}

proof fn lemma_word_len_range(s: Seq<char>, i: int, j: int)
    requires
        0 <= i <= j <= s.len(),
        forall|k: int| i <= k < j ==> !is_blank(#[trigger] s[k]),
        j == s.len() || is_blank(s[j]),
    ensures
        word_len_from(s, i) == j - i,
    decreases j - i,
{
    if i < j {
        lemma_word_len_range(s, i + 1, j);
    }
}

#[via_fn]
proof fn tokens_from_dec(s: Seq<char>, i: int) {
    lemma_word_len_from(s, i);
}

/// The tokens of `s` from position `i` on.
pub open spec fn tokens_from(s: Seq<char>, i: int) -> Seq<Seq<char>>
    decreases s.len() - i,
    when 0 <= i <= s.len()
    via tokens_from_dec
{
    if i >= s.len() {
        Seq::empty()
    } else if is_blank(s[i]) {
        tokens_from(s, i + 1)
    } else {
        seq![s.subrange(i, i + word_len_from(s, i))] + tokens_from(s, i + word_len_from(s, i))
    }
}

/// The blank-separated tokens of a line.
pub open spec fn tokens_of(s: Seq<char>) -> Seq<Seq<char>> {
    tokens_from(s, 0)
}

/// Splits a line into its blank-separated tokens.
pub fn tokenize(s: &str) -> (r: Vec<String>)
    ensures
        r@.map_values(|t: String| t@) == tokens_of(s@),
{
    let n = s.unicode_len();
    let mut out: Vec<String> = Vec::new();
    let mut i: usize = 0;
    proof {
        assert(out@.map_values(|t: String| t@) =~= Seq::<Seq<char>>::empty());
    }
    while i < n
        invariant
            i <= n,
            n == s@.len(),
            tokens_of(s@) == out@.map_values(|t: String| t@) + tokens_from(s@, i as int),
        decreases n - i,
    {
        let c = s.get_char(i);
        if is_blank_char(c) {
            i = i + 1;
        } else {
            let ghost pre = out@.map_values(|t: String| t@);
            let mut cur = String::new();
            push_char(&mut cur, c);
            proof {
                assert(cur@ =~= s@.subrange(i as int, i + 1));
            }
            let mut j = i + 1;
            while j < n && !is_blank_char(s.get_char(j))
                invariant
                    i < j <= n,
                    n == s@.len(),
                    cur@ == s@.subrange(i as int, j as int),
                    forall|k: int| i <= k < j ==> !is_blank(#[trigger] s@[k]),
                decreases n - j,
            {
                push_char(&mut cur, s.get_char(j));
                proof {
                    assert(cur@ =~= s@.subrange(i as int, j + 1));
                }
                j = j + 1;
            }
            proof {
                lemma_word_len_range(s@, i as int, j as int);
                assert(tokens_from(s@, i as int) == seq![s@.subrange(i as int, j as int)]
                    + tokens_from(s@, j as int));
            }
            out.push(cur);
            proof {
                assert(out@.map_values(|t: String| t@) =~= pre.push(s@.subrange(
                    i as int,
                    j as int,
                )));
                assert(pre.push(s@.subrange(i as int, j as int)) + tokens_from(s@, j as int)
                    =~= pre + tokens_from(s@, i as int));
            }
            i = j;
        }
    }
    proof {
        assert(out@.map_values(|t: String| t@) + tokens_from(s@, n as int) =~= out@.map_values(
            |t: String| t@,
        ));
    }
    out
}

/// The numeric value of a digit string, most significant digit first.
pub open spec fn digits_val(s: Seq<char>) -> int
    decreases s.len(),
{
    if s.len() == 0 {
        0
    } else {
        digits_val(s.drop_last()) * 10 + (s.last() as int - '0' as int)
    }
}

/// A non-empty run of decimal digits.
pub open spec fn all_digits(s: Seq<char>) -> bool {
    s.len() > 0 && forall|i: int| 0 <= i < s.len() ==> digit_char(#[trigger] s[i])
}

/// What parsing an unsigned size out of `s` denotes: an optional plus sign,
/// then digits whose value fits the machine.
pub open spec fn parse_usize_spec(s: Seq<char>) -> Option<int> {
    let body = if s.len() > 0 && s[0] == '+' {
        s.skip(1)
    } else {
        s
    };
    if all_digits(body) && digits_val(body) <= usize::MAX {
        Some(digits_val(body))
    } else {
        None
    }
}

proof fn lemma_digits_val_nonneg(s: Seq<char>)
    requires
        forall|i: int| 0 <= i < s.len() ==> digit_char(#[trigger] s[i]),
    ensures
        digits_val(s) >= 0,
    decreases s.len(),
{
    if s.len() > 0 {
        lemma_digits_val_nonneg(s.drop_last());
    }
}

proof fn lemma_digits_val_take_le(s: Seq<char>, j: int)
    requires
        forall|i: int| 0 <= i < s.len() ==> digit_char(#[trigger] s[i]),
        0 <= j <= s.len(),
    ensures
        digits_val(s.take(j)) <= digits_val(s),
    decreases s.len() - j,
{
    if j < s.len() {
        assert(s.take(j + 1).drop_last() =~= s.take(j));
        assert(s.take(j + 1).last() == s[j]);
        lemma_digits_val_nonneg(s.take(j));
        lemma_digits_val_take_le(s, j + 1);
    } else {
        assert(s.take(j) =~= s);
    }
}

/// Parses an unsigned size: an optional plus sign, then decimal digits
/// whose value fits the machine.
pub fn parse_usize(s: &str) -> (r: Option<usize>)
    ensures
        match r {
            Some(v) => parse_usize_spec(s@) == Some(v as int),
            None => parse_usize_spec(s@) is None,
        },
{
    let n = s.unicode_len();
    let start: usize = if n > 0 && s.get_char(0) == '+' {
        1
    } else {
        0
    };
    let ghost body = if s@.len() > 0 && s@[0] == '+' {
        s@.skip(1)
    } else {
        s@
    };
    proof {
        assert(body =~= s@.subrange(start as int, n as int));
    }
    if start >= n {
        return None;
    }
    let mut acc: usize = 0;
    let mut i = start;
    while i < n
        invariant
            start <= i <= n,
            n == s@.len(),
            start < n,
            body == (if s@.len() > 0 && s@[0] == '+' {
                s@.skip(1)
            } else {
                s@
            }),
            body == s@.subrange(start as int, n as int),
            forall|k: int| start <= k < i ==> digit_char(#[trigger] s@[k]),
            acc == digits_val(s@.subrange(start as int, i as int)),
        decreases n - i,
    {
        let c = s.get_char(i);
        if !('0' <= c && c <= '9') {
            proof {
                assert(!digit_char(body[i - start]));
            }
            return None;
        }
        let d = (c as u32 - '0' as u32) as usize;
        let ghost prefix = s@.subrange(start as int, i as int);
        proof {
            assert(s@.subrange(start as int, i + 1).drop_last() =~= prefix);
            assert(s@.subrange(start as int, i + 1).last() == s@[i as int]);
        }
        let next = match acc.checked_mul(10) {
            Some(x) => x.checked_add(d),
            None => None,
        };
        match next {
            Some(v) => {
                acc = v;
            },
            None => {
                proof {
                    assert(digits_val(s@.subrange(start as int, i + 1)) > usize::MAX);
                    if all_digits(body) {
                        lemma_digits_val_take_le(body, i + 1 - start);
                        assert(body.take(i + 1 - start) =~= s@.subrange(start as int, i + 1));
                    }
                }
                return None;
            },
        }
        i = i + 1;
    }
    proof {
        assert(s@.subrange(start as int, n as int) =~= body);
        assert(all_digits(body));
    }
    Some(acc)
}

/// Case-insensitive match of one character against a lower-case pattern
/// character.
pub open spec fn ci_eq(a: char, b: char) -> bool {
    a == b || ('A' <= a <= 'Z' && (a as u32) + 32 == (b as u32))
}

/// Case-insensitive match of a token against a lower-case pattern.
pub open spec fn matches_ci(s: Seq<char>, t: Seq<char>) -> bool {
    s.len() == t.len() && forall|i: int| 0 <= i < s.len() ==> ci_eq(#[trigger] s[i], t[i])
}

fn eq_ci(s: &str, t: &str) -> (r: bool)
    ensures
        r == matches_ci(s@, t@),
{
    let n = s.unicode_len();
    if n != t.unicode_len() {
        return false;
    }
    let mut i: usize = 0;
    while i < n
        invariant
            i <= n,
            n == s@.len(),
            n == t@.len(),
            forall|j: int| 0 <= j < i ==> ci_eq(#[trigger] s@[j], t@[j]),
        decreases n - i,
    {
        let a = s.get_char(i);
        let b = t.get_char(i);
        let same = a == b || ('A' <= a && a <= 'Z' && (a as u32) + 32 == (b as u32));
        if !same {
            return false;
        }
        i = i + 1;
    }
    true
}

/// What a field option denotes, matched without regard to case.
pub open spec fn field_of(s: Seq<char>) -> Option<Field> {
    if matches_ci(s, "-username"@) || matches_ci(s, "-name"@) || matches_ci(s, "-user"@) {
        Some(Field::Username)
    } else if matches_ci(s, "-password"@) || matches_ci(s, "-pass"@) || matches_ci(s, "-pwd"@) {
        Some(Field::Password)
    } else {
        None
    }
}

/// Parses a field option: the username or the password field, named without
/// regard to case. Anything else is rejected as the invalid argument it is.
pub fn parse_vault_field(input: &str) -> (r: Result<Field, AppError>)
    ensures
        field_of(input@) matches Some(f) ==> r == Ok::<Field, AppError>(f),
        field_of(input@) is None ==> (r matches Err(e) && e@ == AppErrorView::InvalidArgument(
            input@,
        )),
{
    if eq_ci(input, "-username") || eq_ci(input, "-name") || eq_ci(input, "-user") {
        Ok(Field::Username)
    } else if eq_ci(input, "-password") || eq_ci(input, "-pass") || eq_ci(input, "-pwd") {
        Ok(Field::Password)
    } else {
        Err(AppError::InvalidArgument(input.to_owned()))
    }
}

/// An option token: led by a dash.
pub open spec fn starts_dash(t: Seq<char>) -> bool {
    t.len() > 0 && t[0] == '-'
}

/// The positional arguments among the tokens after the command word.
pub open spec fn args_of(toks: Seq<Seq<char>>) -> Seq<Seq<char>> {
    toks.skip(1).filter(|t: Seq<char>| !starts_dash(t))
}

/// The dash-led options among the tokens after the command word.
pub open spec fn opts_of(toks: Seq<Seq<char>>) -> Seq<Seq<char>> {
    toks.skip(1).filter(|t: Seq<char>| starts_dash(t))
}

/// The arguments joined by single spaces.
pub open spec fn join_spaces(ts: Seq<Seq<char>>) -> Seq<char>
    decreases ts.len(),
{
    if ts.len() == 0 {
        Seq::empty()
    } else if ts.len() == 1 {
        ts[0]
    } else {
        join_spaces(ts.drop_last()) + " "@ + ts.last()
    }
}

/// A positional argument fetched by place: absent places and invalid
/// arguments are rejected under the argument's name.
pub open spec fn get_arg_spec(args: Seq<Seq<char>>, i: int, name: Seq<char>) -> Result<
    Seq<char>,
    AppErrorView,
> {
    if i >= args.len() {
        Err(AppErrorView::MissingArgument(name))
    } else if valid_arg(args[i]) {
        Ok(args[i])
    } else {
        Err(AppErrorView::InvalidArgument(name))
    }
}

/// What a vault subcommand line denotes.
pub open spec fn parse_vault_cmd_spec(args: Seq<Seq<char>>, opts: Seq<Seq<char>>) -> Result<
    CommandView,
    AppErrorView,
> {
    if args.len() == 0 {
        Err(AppErrorView::InvalidCommand)
    } else if args[0] == "new"@ || args[0] == "create"@ {
        match get_arg_spec(args, 1, "name"@) {
            Ok(name) => Ok(CommandView::Vault(VaultCommandView::New(name))),
            Err(e) => Err(e),
        }
    } else if args[0] == "open"@ || args[0] == "enter"@ || args[0] == "unlock"@ {
        match get_arg_spec(args, 1, "name"@) {
            Ok(name) => Ok(CommandView::Vault(VaultCommandView::Open(name))),
            Err(e) => Err(e),
        }
    } else if args[0] == "close"@ || args[0] == "exit"@ || args[0] == "lock"@ {
        Ok(CommandView::Vault(VaultCommandView::Close))
    } else if args[0] == "list"@ || args[0] == "lst"@ {
        Ok(CommandView::Vault(VaultCommandView::List))
    } else if args[0] == "show"@ || args[0] == "inspect"@ {
        let entry = if args.len() > 1 {
            Some(args[1])
        } else {
            None
        };
        let expose = opts.contains("-expose"@) || opts.contains("-unmask"@);
        Ok(CommandView::Vault(VaultCommandView::Show(entry, expose)))
    } else if args[0] == "add"@ {
        match get_arg_spec(args, 1, "entry"@) {
            Ok(entry) => Ok(CommandView::Vault(VaultCommandView::Add(entry))),
            Err(e) => Err(e),
        }
    } else if args[0] == "update"@ || args[0] == "up"@ {
        match get_arg_spec(args, 1, "entry"@) {
            Ok(entry) => {
                let opt0 = if opts.len() > 0 {
                    opts[0]
                } else {
                    Seq::empty()
                };
                match field_of(opt0) {
                    Some(field) => match get_arg_spec(args, 2, "value"@) {
                        Ok(value) => Ok(
                            CommandView::Vault(VaultCommandView::Update(entry, field, value)),
                        ),
                        Err(e) => Err(e),
                    },
                    None => Err(AppErrorView::InvalidArgument(opt0)),
                }
            },
            Err(e) => Err(e),
        }
    } else if args[0] == "delete"@ || args[0] == "del"@ {
        match get_arg_spec(args, 1, "entry"@) {
            Ok(entry) => Ok(CommandView::Vault(VaultCommandView::Delete(entry))),
            Err(e) => Err(e),
        }
    } else if args[0] == "copy"@ || args[0] == "cp"@ {
        match get_arg_spec(args, 1, "entry"@) {
            Ok(entry) => {
                if opts.len() > 1 {
                    match field_of(opts[1]) {
                        Some(field) => Ok(
                            CommandView::Vault(VaultCommandView::Copy(entry, field)),
                        ),
                        None => Err(AppErrorView::InvalidArgument(opts[1])),
                    }
                } else {
                    Ok(CommandView::Vault(VaultCommandView::Copy(entry, Field::Password)))
                }
            },
            Err(e) => Err(e),
        }
    } else if args[0] == "destroy"@ || args[0] == "wipe"@ {
        Ok(CommandView::Vault(VaultCommandView::Destroy))
    } else {
        Err(AppErrorView::InvalidCommand)
    }
}

/// What a whole command line denotes.
pub open spec fn parse_cmd_spec(line: Seq<char>) -> Result<CommandView, AppErrorView> {
    let toks = tokens_of(line);
    if toks.len() == 0 {
        Err(AppErrorView::InvalidCommand)
    } else {
        let cmd = toks[0];
        let args = args_of(toks);
        let opts = opts_of(toks);
        if cmd == "help"@ || cmd == "h"@ || cmd == "?"@ {
            let joined = join_spaces(args);
            if joined.len() == 0 {
                Ok(CommandView::Help(None))
            } else if valid_arg(joined) {
                Ok(CommandView::Help(Some(joined)))
            } else {
                Err(AppErrorView::InvalidArgument("command"@))
            }
        } else if cmd == "clear"@ || cmd == "cls"@ {
            Ok(CommandView::Clear)
        } else if cmd == "exit"@ || cmd == "quit"@ || cmd == "q"@ {
            Ok(CommandView::Exit)
        } else if cmd == "generate"@ || cmd == "gen"@ {
            let length = if args.len() > 0 && parse_usize_spec(args[0]) is Some {
                parse_usize_spec(args[0]).unwrap()
            } else {
                PASSWORD_MIN_LEN as int
            };
            let params = PasswordParamsView {
                length,
                avoid_ambiguous: opts.contains("-avoid-ambiguous"@),
            };
            let copy = opts.contains("-copy"@) || opts.contains("-cp"@) || opts.contains("-c"@);
            Ok(CommandView::Generate(params, copy))
        } else if cmd == "analyze"@ || cmd == "score"@ {
            if args.len() > 0 {
                Ok(CommandView::Analyze(args[0]))
            } else if opts.contains("-paste"@) || opts.contains("-p"@) {
                Ok(CommandView::AnalyzePaste)
            } else {
                Err(AppErrorView::MissingArgument("password"@))
            }
        } else if cmd == "panic"@ {
            Ok(CommandView::Panic)
        } else if cmd == "vault"@ || cmd == "vlt"@ {
            parse_vault_cmd_spec(args, opts)
        } else {
            Err(AppErrorView::InvalidCommand)
        }
    }
}

fn contains_tok(v: &Vec<&str>, t: &str) -> (r: bool)
    ensures
        r == v@.map_values(|s: &str| s@).contains(t@),
{
    let ghost w = v@.map_values(|s: &str| s@);
    let mut i: usize = 0;
    while i < v.len()
        invariant
            i <= v.len(),
            w == v@.map_values(|s: &str| s@),
            forall|j: int| 0 <= j < i ==> w[j] != t@,
        decreases v.len() - i,
    {
        if str_eq(v[i], t) {
            proof {
                assert(w[i as int] == t@);
            }
            return true;
        }
        i = i + 1;
    }
    proof {
        if w.contains(t@) {
            let j = choose|j: int| 0 <= j < w.len() && w[j] == t@;
        }
    }
    false
}

fn get_arg<'a>(args: &Vec<&'a str>, i: usize, name: &str) -> (r: Result<&'a str, AppError>)
    ensures
        match r {
            Ok(a) => get_arg_spec(args@.map_values(|s: &str| s@), i as int, name@) == Ok::<
                Seq<char>,
                AppErrorView,
            >(a@),
            Err(e) => get_arg_spec(args@.map_values(|s: &str| s@), i as int, name@) == Err::<
                Seq<char>,
                AppErrorView,
            >(e@),
        },
{
    if i >= args.len() {
        return Err(AppError::MissingArgument(name.to_owned()));
    }
    let a = args[i];
    match crate::validation::validate_arg(a, name) {
        Ok(()) => Ok(a),
        Err(e) => Err(e),
    }
}

/// Parses a vault subcommand from its argument and option tokens.
pub fn parse_vault_cmd(args: &Vec<&str>, opts: Vec<&str>) -> (r: Result<Command, AppError>)
    ensures
        match r {
            Ok(c) => parse_vault_cmd_spec(
                args@.map_values(|s: &str| s@),
                opts@.map_values(|s: &str| s@),
            ) == Ok::<CommandView, AppErrorView>(c@),
            Err(e) => parse_vault_cmd_spec(
                args@.map_values(|s: &str| s@),
                opts@.map_values(|s: &str| s@),
            ) == Err::<CommandView, AppErrorView>(e@),
        },
{
    let ghost ga = args@.map_values(|s: &str| s@);
    let ghost go = opts@.map_values(|s: &str| s@);
    if args.len() == 0 {
        return Err(AppError::InvalidCommand);
    }
    let head = args[0];
    if str_eq(head, "new") || str_eq(head, "create") {
        match get_arg(args, 1, "name") {
            Ok(name) => Ok(Command::Vault(VaultCommand::New(name.to_owned()))),
            Err(e) => Err(e),
        }
    } else if str_eq(head, "open") || str_eq(head, "enter") || str_eq(head, "unlock") {
        match get_arg(args, 1, "name") {
            Ok(name) => Ok(Command::Vault(VaultCommand::Open(name.to_owned()))),
            Err(e) => Err(e),
        }
    } else if str_eq(head, "close") || str_eq(head, "exit") || str_eq(head, "lock") {
        Ok(Command::Vault(VaultCommand::Close))
    } else if str_eq(head, "list") || str_eq(head, "lst") {
        Ok(Command::Vault(VaultCommand::List))
    } else if str_eq(head, "show") || str_eq(head, "inspect") {
        let entry = get_opt_str(args, 1);
        let expose = contains_tok(&opts, "-expose") || contains_tok(&opts, "-unmask");
        Ok(Command::Vault(VaultCommand::Show(entry, expose)))
    } else if str_eq(head, "add") {
        match get_arg(args, 1, "entry") {
            Ok(entry) => Ok(Command::Vault(VaultCommand::Add(entry.to_owned()))),
            Err(e) => Err(e),
        }
    } else if str_eq(head, "update") || str_eq(head, "up") {
        match get_arg(args, 1, "entry") {
            Ok(entry) => {
                let opt0: &str = if opts.len() > 0 {
                    opts[0]
                } else {
                    ""
                };
                proof {
                    if go.len() == 0 {
                        reveal_strlit("");
                        assert(opt0@ =~= Seq::<char>::empty());
                    }
                }
                match parse_vault_field(opt0) {
                    Ok(field) => match get_arg(args, 2, "value") {
                        Ok(value) => Ok(
                            Command::Vault(
                                VaultCommand::Update(entry.to_owned(), field, value.to_owned()),
                            ),
                        ),
                        Err(e) => Err(e),
                    },
                    Err(e) => Err(e),
                }
            },
            Err(e) => Err(e),
        }
    } else if str_eq(head, "delete") || str_eq(head, "del") {
        match get_arg(args, 1, "entry") {
            Ok(entry) => Ok(Command::Vault(VaultCommand::Delete(entry.to_owned()))),
            Err(e) => Err(e),
        }
    } else if str_eq(head, "copy") || str_eq(head, "cp") {
        match get_arg(args, 1, "entry") {
            Ok(entry) => {
                if opts.len() > 1 {
                    match parse_vault_field(opts[1]) {
                        Ok(field) => Ok(
                            Command::Vault(VaultCommand::Copy(entry.to_owned(), field)),
                        ),
                        Err(e) => Err(e),
                    }
                } else {
                    Ok(Command::Vault(VaultCommand::Copy(entry.to_owned(), Field::Password)))
                }
            },
            Err(e) => Err(e),
        }
    } else if str_eq(head, "destroy") || str_eq(head, "wipe") {
        Ok(Command::Vault(VaultCommand::Destroy))
    } else {
        Err(AppError::InvalidCommand)
    }
}

/// Parses one command line.
pub fn parse_cmd(input: &str) -> (r: Result<Command, AppError>)
    ensures
        match r {
            Ok(c) => parse_cmd_spec(input@) == Ok::<CommandView, AppErrorView>(c@),
            Err(e) => parse_cmd_spec(input@) == Err::<CommandView, AppErrorView>(e@),
        },
{
    let tokens = tokenize(input);
    let ghost toks = tokens@.map_values(|t: String| t@);
    if tokens.len() == 0 {
        return Err(AppError::InvalidCommand);
    }
    let mut args: Vec<&str> = Vec::new();
    let mut opts: Vec<&str> = Vec::new();
    let mut i: usize = 1;
    proof {
        reveal(Seq::filter);
        assert(args@.map_values(|s: &str| s@) =~= toks.skip(1).take(0).filter(
            |t: Seq<char>| !starts_dash(t),
        ));
        assert(opts@.map_values(|s: &str| s@) =~= toks.skip(1).take(0).filter(
            |t: Seq<char>| starts_dash(t),
        ));
    }
    while i < tokens.len()
        invariant
            1 <= i <= tokens.len(),
            toks == tokens@.map_values(|t: String| t@),
            toks.len() == tokens@.len(),
            args@.map_values(|s: &str| s@) == toks.skip(1).take(i - 1).filter(
                |t: Seq<char>| !starts_dash(t),
            ),
            opts@.map_values(|s: &str| s@) == toks.skip(1).take(i - 1).filter(
                |t: Seq<char>| starts_dash(t),
            ),
        decreases tokens.len() - i,
    {
        let t: &str = tokens[i].as_str();
        let ghost pre_args = args@.map_values(|s: &str| s@);
        let ghost pre_opts = opts@.map_values(|s: &str| s@);
        let dashed = t.unicode_len() > 0 && t.get_char(0) == '-';
        proof {
            assert(toks.skip(1)[i - 1] == t@);
            assert(dashed == starts_dash(t@));
            assert(toks.skip(1).take(i as int) =~= toks.skip(1).take(i - 1).push(t@));
            reveal(Seq::filter);
            assert(toks.skip(1).take(i - 1).push(t@).drop_last() =~= toks.skip(1).take(i - 1));
        }
        if dashed {
            opts.push(t);
            proof {
                assert(opts@.map_values(|s: &str| s@) =~= pre_opts.push(t@));
            }
        } else {
            args.push(t);
            proof {
                assert(args@.map_values(|s: &str| s@) =~= pre_args.push(t@));
            }
        }
        i = i + 1;
    }
    proof {
        assert(toks.skip(1).take(tokens@.len() - 1) =~= toks.skip(1));
    }
    let head: &str = tokens[0].as_str();
    if str_eq(head, "help") || str_eq(head, "h") || str_eq(head, "?") {
        let joined = join_args(&args);
        if joined.as_str().is_empty() {
            Ok(Command::Help(None))
        } else {
            match crate::validation::validate_arg(joined.as_str(), "command") {
                Ok(()) => Ok(Command::Help(Some(joined))),
                Err(_) => Err(AppError::InvalidArgument("command".to_owned())),
            }
        }
    } else if str_eq(head, "clear") || str_eq(head, "cls") {
        Ok(Command::Clear)
    } else if str_eq(head, "exit") || str_eq(head, "quit") || str_eq(head, "q") {
        Ok(Command::Exit)
    } else if str_eq(head, "generate") || str_eq(head, "gen") {
        let length: usize = if args.len() > 0 {
            match parse_usize(args[0]) {
                Some(v) => v,
                None => PASSWORD_MIN_LEN,
            }
        } else {
            PASSWORD_MIN_LEN
        };
        let params = PasswordParams { length, avoid_ambiguous: contains_tok(&opts, "-avoid-ambiguous") };
        let copy = contains_tok(&opts, "-copy") || contains_tok(&opts, "-cp") || contains_tok(
            &opts,
            "-c",
        );
        Ok(Command::Generate(params, copy))
    } else if str_eq(head, "analyze") || str_eq(head, "score") {
        if args.len() > 0 {
            Ok(Command::Analyze(get_str(&args, 0)))
        } else if contains_tok(&opts, "-paste") || contains_tok(&opts, "-p") {
            Ok(Command::AnalyzePaste)
        } else {
            Err(AppError::MissingArgument("password".to_owned()))
        }
    } else if str_eq(head, "panic") {
        Ok(Command::Panic)
    } else if str_eq(head, "vault") || str_eq(head, "vlt") {
        parse_vault_cmd(&args, opts)
    } else {
        Err(AppError::InvalidCommand)
    }
}

/// What a confirmation answer denotes: yes, no, or neither.
pub open spec fn confirmation_of(s: Seq<char>) -> Option<bool> {
    if matches_ci(s, "y"@) || matches_ci(s, "yes"@) {
        Some(true)
    } else if matches_ci(s, "n"@) || matches_ci(s, "no"@) {
        Some(false)
    } else {
        None
    }
}

/// Reads a confirmation answer, without regard to case; anything but a yes
/// or a no is rejected.
pub fn parse_confirmation(input: &str) -> (r: Result<bool, AppError>)
    ensures
        confirmation_of(input@) matches Some(b) ==> r == Ok::<bool, AppError>(b),
        confirmation_of(input@) is None ==> (r matches Err(e) && e@ == AppErrorView::Other(
            "Invalid choice"@,
        )),
{
    if eq_ci(input, "y") || eq_ci(input, "yes") {
        Ok(true)
    } else if eq_ci(input, "n") || eq_ci(input, "no") {
        Ok(false)
    } else {
        Err(AppError::Other("Invalid choice".to_owned()))
    }
}

/// Joins the arguments with single spaces.
fn join_args(args: &Vec<&str>) -> (r: String)
    ensures
        r@ == join_spaces(args@.map_values(|s: &str| s@)),
{
    let ghost w = args@.map_values(|s: &str| s@);
    let mut out = String::new();
    let mut i: usize = 0;
    proof {
        assert(join_spaces(w.take(0)) =~= Seq::<char>::empty());
    }
    while i < args.len()
        invariant
            i <= args.len(),
            w == args@.map_values(|s: &str| s@),
            w.len() == args@.len(),
            out@ == join_spaces(w.take(i as int)),
        decreases args.len() - i,
    {
        if i > 0 {
            out.append(" ");
        }
        out.append(args[i]);
        proof {
            lemma_join_spaces_push(w.take(i as int), w[i as int]);
            assert(w.take(i + 1) =~= w.take(i as int).push(w[i as int]));
            if i == 0 {
                assert(out@ =~= join_spaces(w.take(1)));
            } else {
                assert(out@ =~= join_spaces(w.take(i + 1)));
            }
        }
        i = i + 1;
    }
    proof {
        assert(w.take(w.len() as int) =~= w);
    }
    out
}

proof fn lemma_join_spaces_push(ts: Seq<Seq<char>>, t: Seq<char>)
    ensures
        join_spaces(ts.push(t)) == if ts.len() == 0 {
            t
        } else {
            join_spaces(ts) + " "@ + t
        },
{
    assert(ts.push(t).drop_last() =~= ts);
    assert(ts.push(t).last() == t);
    if ts.len() == 0 {
        assert(ts.push(t)[0] == t);
    }
}

} // verus!
