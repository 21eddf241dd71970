//! The parsing pipeline: the segmenter, the tokenizer, the command resolver
//! and the orchestrator, each verified against a mathematical description of
//! its scan over `Seq<char>`.

use vstd::prelude::*;
use vstd::slice::slice_subrange;
use vstd::string::*;

use crate::command::Command;
use crate::command::CommandModel;
use crate::command::CommandType;
use crate::command::Commands;
use crate::command::Flag;
use crate::command::models_of;
use crate::errors::ParseError;
use crate::text::chars_to_string;
use crate::text::chars_eq_str;
use crate::text::lower_chars;
use crate::text::lower_seq;
use crate::text::str_to_chars;
use crate::text::trim_chars;
use crate::text::trim_spec;
use crate::text::views_of;

verus! {

// ------------------------------------------------------------------
// Segmenter
// ------------------------------------------------------------------
/// One step at a time, the segmenter scan from position `i` with quote
/// states `in_s` and `in_d`, the text of the open segment `cur`, and the
/// completed segments `acc`. Outside quotes, `;` and `&` end a segment (`&`
/// also consumes a second `&`), `||` ends a segment, a lone `|` is kept
/// literally, and quote characters are kept while toggling their state.
pub open spec fn split_rec(
    s: Seq<char>,
    i: int,
    in_s: bool,
    in_d: bool,
    cur: Seq<char>,
    acc: Seq<Seq<char>>,
) -> Seq<Seq<char>>
    recommends
        0 <= i <= s.len(),
    decreases s.len() - i,
{
    if i < 0 || i >= s.len() {
        if trim_spec(cur).len() > 0 {
            acc.push(cur)
        } else {
            acc
        }
    } else {
        let c = s[i];
        if c == '\'' && !in_d {
            split_rec(s, i + 1, !in_s, in_d, cur.push(c), acc)
        } else if c == '"' && !in_s {
            split_rec(s, i + 1, in_s, !in_d, cur.push(c), acc)
        } else if c == ';' && !in_s && !in_d {
            split_rec(s, i + 1, in_s, in_d, Seq::empty(), acc.push(cur))
        } else if c == '&' && !in_s && !in_d {
            let next = if i + 1 < s.len() && s[i + 1] == '&' {
                i + 2
            } else {
                i + 1
            };
            split_rec(s, next, in_s, in_d, Seq::empty(), acc.push(cur))
        } else if c == '|' && !in_s && !in_d && i + 1 < s.len() && s[i + 1] == '|' {
            split_rec(s, i + 2, in_s, in_d, Seq::empty(), acc.push(cur))
        } else {
            split_rec(s, i + 1, in_s, in_d, cur.push(c), acc)
        }
    }
}

/// The command segments of `s`, in input order.
pub open spec fn split_commands_spec(s: Seq<char>) -> Seq<Seq<char>> {
    split_rec(s, 0, false, false, Seq::empty(), Seq::empty())
}

/// Splits a line into command segments on `;`, `&`, `&&` and `||`,
/// respecting quotes. A lone `|` is not a separator and is kept literally.
/// Quote characters are kept in the segment text; the tokenizer strips them
/// later. A last segment that is only whitespace is dropped.
pub fn split_commands(input: &str) -> (r: Vec<String>)
    ensures
        views_of(r@) == split_commands_spec(input@),
{
    let chars = str_to_chars(input);
    let n = chars.len();
    let mut in_s = false;
    let mut in_d = false;
    let mut cur: Vec<char> = Vec::new();
    let mut acc: Vec<String> = Vec::new();
    let mut i: usize = 0;
    proof {
        assert(views_of(acc@) =~= Seq::<Seq<char>>::empty());
    }
    while i < n
        invariant
            i <= n,
            n == chars@.len(),
            chars@ == input@,
            split_rec(input@, i as int, in_s, in_d, cur@, views_of(acc@)) == split_commands_spec(
                input@,
            ),
        decreases n - i,
    {
        let ghost prev = views_of(acc@);
        let ghost prev_cur = cur@;
        let c = chars[i];
        if c == '\'' && !in_d {
            in_s = !in_s;
            cur.push(c);
            i = i + 1;
        } else if c == '"' && !in_s {
            in_d = !in_d;
            cur.push(c);
            i = i + 1;
        } else if c == ';' && !in_s && !in_d {
            acc.push(chars_to_string(&cur));
            cur = Vec::new();
            i = i + 1;
            assert(views_of(acc@) =~= prev.push(prev_cur));
        } else if c == '&' && !in_s && !in_d {
            acc.push(chars_to_string(&cur));
            cur = Vec::new();
            if i + 1 < n && chars[i + 1] == '&' {
                i = i + 2;
            } else {
                i = i + 1;
            }
            assert(views_of(acc@) =~= prev.push(prev_cur));
        } else if c == '|' && !in_s && !in_d {
            if i + 1 < n && chars[i + 1] == '|' {
                acc.push(chars_to_string(&cur));
                cur = Vec::new();
                i = i + 2;
                assert(views_of(acc@) =~= prev.push(prev_cur));
            } else {
                cur.push(c);
                i = i + 1;
            }
        } else {
            cur.push(c);
            i = i + 1;
        }
    }
    let t = trim_chars(&cur);
    if t.len() > 0 {
        let ghost prev = views_of(acc@);
        acc.push(chars_to_string(&cur));
        assert(views_of(acc@) =~= prev.push(cur@));
    }
    acc
}

// ------------------------------------------------------------------
// Tokenizer
// ------------------------------------------------------------------
/// One step at a time, the tokenizer scan from position `i` with quote
/// states `in_s` and `in_d`, the one-shot escape flag `esc`, the open token
/// `cur` and the completed tokens `acc`. An escaped character is taken
/// literally; a backslash sets the escape flag and is dropped; quote
/// characters toggle their state and are dropped; unquoted spaces and tabs
/// end a token. `None` means a quote was left open at the end.
pub open spec fn tok_rec(
    s: Seq<char>,
    i: int,
    in_s: bool,
    in_d: bool,
    esc: bool,
    cur: Seq<char>,
    acc: Seq<Seq<char>>,
) -> Option<Seq<Seq<char>>>
    recommends
        0 <= i <= s.len(),
    decreases s.len() - i,
{
    if i < 0 || i >= s.len() {
        if in_s || in_d {
            None
        } else if cur.len() > 0 {
            Some(acc.push(cur))
        } else {
            Some(acc)
        }
    } else {
        let c = s[i];
        if esc {
            tok_rec(s, i + 1, in_s, in_d, false, cur.push(c), acc)
        } else if c == '\\' {
            tok_rec(s, i + 1, in_s, in_d, true, cur, acc)
        } else if c == '\'' && !in_d {
            tok_rec(s, i + 1, !in_s, in_d, false, cur, acc)
        } else if c == '"' && !in_s {
            tok_rec(s, i + 1, in_s, !in_d, false, cur, acc)
        } else if (c == ' ' || c == '\t') && !in_s && !in_d {
            if cur.len() > 0 {
                tok_rec(s, i + 1, in_s, in_d, false, Seq::empty(), acc.push(cur))
            } else {
                tok_rec(s, i + 1, in_s, in_d, false, cur, acc)
            }
        } else {
            tok_rec(s, i + 1, in_s, in_d, false, cur.push(c), acc)
        }
    }
}

/// The word tokens of segment `s`, or `None` when a quote is left open.
pub open spec fn tokenize_spec(s: Seq<char>) -> Option<Seq<Seq<char>>> {
    tok_rec(s, 0, false, false, false, Seq::empty(), Seq::empty())
}

/// Splits one command segment into word tokens, honoring single and double
/// quoting and backslash escaping. A trailing lone backslash is silently
/// dropped; a quote left open fails with `UnclosedQuote`.
pub fn tokenize(input: &str) -> (r: Result<Vec<String>, ParseError>)
    ensures
        (match tokenize_spec(input@) {
            Some(ts) => r matches Ok(v) && views_of(v@) == ts,
            None => r matches Err(e) && e == ParseError::UnclosedQuote,
        }),
{
    let chars = str_to_chars(input);
    let n = chars.len();
    let mut in_s = false;
    let mut in_d = false;
    let mut esc = false;
    let mut cur: Vec<char> = Vec::new();
    let mut acc: Vec<String> = Vec::new();
    let mut i: usize = 0;
    proof {
        assert(views_of(acc@) =~= Seq::<Seq<char>>::empty());
    }
    while i < n
        invariant
            i <= n,
            n == chars@.len(),
            chars@ == input@,
            tok_rec(input@, i as int, in_s, in_d, esc, cur@, views_of(acc@)) == tokenize_spec(
                input@,
            ),
        decreases n - i,
    {
        let ghost prev = views_of(acc@);
        let ghost prev_cur = cur@;
        let c = chars[i];
        if esc {
            cur.push(c);
            esc = false;
        } else if c == '\\' {
            esc = true;
        } else if c == '\'' && !in_d {
            in_s = !in_s;
        } else if c == '"' && !in_s {
            in_d = !in_d;
        } else if (c == ' ' || c == '\t') && !in_s && !in_d {
            if cur.len() > 0 {
                acc.push(chars_to_string(&cur));
                cur = Vec::new();
                assert(views_of(acc@) =~= prev.push(prev_cur));
            }
        } else {
            cur.push(c);
        }
        i = i + 1;
    }
    if in_s || in_d {
        return Err(ParseError::UnclosedQuote);
    }
    if cur.len() > 0 {
        let ghost prev = views_of(acc@);
        acc.push(chars_to_string(&cur));
        assert(views_of(acc@) =~= prev.push(cur@));
    }
    Ok(acc)
}

// ------------------------------------------------------------------
// Command resolver
// ------------------------------------------------------------------
/// The flag named by `c`, if any.
pub open spec fn flag_of_char(c: char) -> Option<Flag> {
    if c == 'l' {
        Some(Flag::L)
    } else if c == 'a' {
        Some(Flag::A)
    } else if c == 'F' {
        Some(Flag::F)
    } else if c == 'r' {
        Some(Flag::R)
    } else {
        None
    }
}

/// Whether token `t` is a clustered short-flag group: it starts with a
/// single hyphen, is longer than one character, and does not start with a
/// double hyphen.
pub open spec fn is_flag_token(t: Seq<char>) -> bool {
    t.len() > 1 && t[0] == '-' && t[1] != '-'
}

/// The flags of token `t` from position `j` on, added to `fs` in first-seen
/// order without duplicates; `Err` carries the first unrecognized flag
/// character.
pub open spec fn flags_of_token(t: Seq<char>, j: int, fs: Seq<Flag>) -> Result<Seq<Flag>, char>
    recommends
        0 <= j <= t.len(),
    decreases t.len() - j,
{
    if j < 0 || j >= t.len() {
        Ok(fs)
    } else {
        match flag_of_char(t[j]) {
            Some(f) => flags_of_token(
                t,
                j + 1,
                if fs.contains(f) {
                    fs
                } else {
                    fs.push(f)
                },
            ),
            None => Err(t[j]),
        }
    }
}

/// The flag/argument partition of the tokens from position `k` on, with the
/// flags and arguments collected so far; `Err` carries the first
/// unrecognized flag character.
pub open spec fn partition_rec(
    ts: Seq<Seq<char>>,
    k: int,
    fs: Seq<Flag>,
    args: Seq<Seq<char>>,
) -> Result<(Seq<Flag>, Seq<Seq<char>>), char>
    recommends
        0 <= k <= ts.len(),
    decreases ts.len() - k,
{
    if k < 0 || k >= ts.len() {
        Ok((fs, args))
    } else {
        let t = ts[k];
        if is_flag_token(t) {
            match flags_of_token(t, 1, fs) {
                Ok(fs2) => partition_rec(ts, k + 1, fs2, args),
                Err(c) => Err(c),
            }
        } else {
            partition_rec(ts, k + 1, fs, args.push(t))
        }
    }
}

/// The flag/argument partition of a whole token sequence.
pub open spec fn flags_and_args_spec(ts: Seq<Seq<char>>) -> Result<
    (Seq<Flag>, Seq<Seq<char>>),
    char,
> {
    partition_rec(ts, 0, Seq::empty(), Seq::empty())
}

/// The flag named by `c`, if any.
fn flag_of(c: char) -> (r: Option<Flag>)
    ensures
        r == flag_of_char(c),
{
    if c == 'l' {
        Some(Flag::L)
    } else if c == 'a' {
        Some(Flag::A)
    } else if c == 'F' {
        Some(Flag::F)
    } else if c == 'r' {
        Some(Flag::R)
    } else {
        None
    }
}

/// Whether `fs` already holds `f`.
fn flags_contain(fs: &Vec<Flag>, f: Flag) -> (r: bool)
    ensures
        r == fs@.contains(f),
{
    let n = fs.len();
    let mut i: usize = 0;
    while i < n
        invariant
            i <= n,
            n == fs@.len(),
            forall|j: int| 0 <= j < i ==> fs@[j] != f,
        decreases n - i,
    {
        if fs[i] == f {
            return true;
        }
        i = i + 1;
    }
    false
}

/// Partitions the tokens after the command name into flags and positional
/// arguments. A token of the shape `-xyz` is a clustered short-flag group:
/// each of its characters after the hyphen must name a flag, repeats are
/// silently dropped, and an unrecognized character fails the whole parse
/// with `InvalidFlag`. Every other token, including a bare `-` and any
/// `--`-prefixed token, is kept verbatim as an argument.
pub fn parse_flags_and_args(tokens: &[String]) -> (r: Result<
    (Vec<Flag>, Vec<String>),
    ParseError,
>)
    ensures
        (match flags_and_args_spec(views_of(tokens@)) {
            Ok(fa) => r matches Ok(p) && p.0@ == fa.0 && views_of(p.1@) == fa.1,
            Err(c) => r matches Err(e) && e matches ParseError::InvalidFlag(d) && d == c,
        }),
{
    let ghost ts = views_of(tokens@);
    let n = tokens.len();
    let mut flags: Vec<Flag> = Vec::new();
    let mut args: Vec<String> = Vec::new();
    let mut k: usize = 0;
    proof {
        assert(views_of(args@) =~= Seq::<Seq<char>>::empty());
    }
    while k < n
        invariant
            k <= n,
            n == tokens@.len(),
            ts == views_of(tokens@),
            partition_rec(ts, k as int, flags@, views_of(args@)) == flags_and_args_spec(ts),
        decreases n - k,
    {
        let token = slice_subrange(tokens, k, k + 1);
        let tc = str_to_chars(token[0].as_str());
        assert(tc@ == ts[k as int]);
        if tc.len() > 1 && tc[0] == '-' && tc[1] != '-' {
            assert(is_flag_token(ts[k as int]));
            let ghost fs0 = flags@;
            let m = tc.len();
            let mut j: usize = 1;
            while j < m
                invariant
                    1 <= j <= m,
                    m == tc@.len(),
                    tc@ == ts[k as int],
                    0 <= k < ts.len(),
                    ts == views_of(tokens@),
                    is_flag_token(tc@),
                    partition_rec(ts, k as int, fs0, views_of(args@)) == flags_and_args_spec(ts),
                    flags_of_token(tc@, j as int, flags@) == flags_of_token(tc@, 1, fs0),
                decreases m - j,
            {
                let c = tc[j];
                match flag_of(c) {
                    Some(f) => {
                        if !flags_contain(&flags, f) {
                            flags.push(f);
                        }
                    },
                    None => {
                        proof {
                            assert(flags_of_token(tc@, 1, fs0) == Err::<Seq<Flag>, char>(c));
                            assert(partition_rec(ts, k as int, fs0, views_of(args@)) == Err::<
                                (Seq<Flag>, Seq<Seq<char>>),
                                char,
                            >(c));
                        }
                        return Err(ParseError::InvalidFlag(c));
                    },
                }
                j = j + 1;
            }
            assert(flags_of_token(tc@, 1, fs0) == Ok::<Seq<Flag>, char>(flags@));
        } else {
            assert(!is_flag_token(ts[k as int]));
            let ghost prev = views_of(args@);
            args.push(token[0].clone());
            assert(views_of(args@) =~= prev.push(ts[k as int]));
        }
        k = k + 1;
    }
    Ok((flags, args))
}

/// The command kind named by the ASCII-lowercased `name`, if any.
pub open spec fn command_of_name(name: Seq<char>) -> Option<CommandType> {
    let n = lower_seq(name);
    if n == "echo"@ {
        Some(CommandType::Echo)
    } else if n == "cd"@ {
        Some(CommandType::Cd)
    } else if n == "ls"@ {
        Some(CommandType::Ls)
    } else if n == "pwd"@ {
        Some(CommandType::Pwd)
    } else if n == "cat"@ {
        Some(CommandType::Cat)
    } else if n == "cp"@ {
        Some(CommandType::Cp)
    } else if n == "rm"@ {
        Some(CommandType::Rm)
    } else if n == "mv"@ {
        Some(CommandType::Mv)
    } else if n == "mkdir"@ {
        Some(CommandType::Mkdir)
    } else if n == "exit"@ {
        Some(CommandType::Exit)
    } else {
        None
    }
}

/// Looks the ASCII-lowercased token up in the fixed command-name table.
fn command_type_of(token: &String) -> (r: Option<CommandType>)
    ensures
        r == command_of_name(token@),
{
    let tc = str_to_chars(token.as_str());
    let low = lower_chars(&tc);
    if chars_eq_str(&low, "echo") {
        Some(CommandType::Echo)
    } else if chars_eq_str(&low, "cd") {
        Some(CommandType::Cd)
    } else if chars_eq_str(&low, "ls") {
        Some(CommandType::Ls)
    } else if chars_eq_str(&low, "pwd") {
        Some(CommandType::Pwd)
    } else if chars_eq_str(&low, "cat") {
        Some(CommandType::Cat)
    } else if chars_eq_str(&low, "cp") {
        Some(CommandType::Cp)
    } else if chars_eq_str(&low, "rm") {
        Some(CommandType::Rm)
    } else if chars_eq_str(&low, "mv") {
        Some(CommandType::Mv)
    } else if chars_eq_str(&low, "mkdir") {
        Some(CommandType::Mkdir)
    } else if chars_eq_str(&low, "exit") {
        Some(CommandType::Exit)
    } else {
        None
    }
}

// ------------------------------------------------------------------
// Parse orchestrator
// ------------------------------------------------------------------
/// What parsing a line yields: a non-empty command sequence, or the first
/// failure met while scanning left to right.
pub enum ParseOutcome {
    /// The resolved commands, in segment order; never empty.
    Parsed(Seq<CommandModel>),
    /// No command segment was left after trimming and separator splitting.
    NoInput,
    /// A segment left a quote open.
    OpenQuote,
    /// A clustered short-flag token held this unrecognized character.
    BadFlag(char),
    /// This leading token, case preserved, names no known command.
    BadCommand(Seq<char>),
}

/// One segment at a time, the orchestrator from segment `k` on with the
/// commands resolved so far. A segment that is blank after trimming, or
/// that tokenizes to no tokens, is skipped; the first failure aborts the
/// whole line.
pub open spec fn parse_rec(segs: Seq<Seq<char>>, k: int, acc: Seq<CommandModel>) -> ParseOutcome
    recommends
        0 <= k <= segs.len(),
    decreases segs.len() - k,
{
    if k < 0 || k >= segs.len() {
        if acc.len() == 0 {
            ParseOutcome::NoInput
        } else {
            ParseOutcome::Parsed(acc)
        }
    } else {
        let seg = trim_spec(segs[k]);
        if seg.len() == 0 {
            parse_rec(segs, k + 1, acc)
        } else {
            match tokenize_spec(seg) {
                None => ParseOutcome::OpenQuote,
                Some(ts) => {
                    if ts.len() == 0 {
                        parse_rec(segs, k + 1, acc)
                    } else {
                        match command_of_name(ts[0]) {
                            None => ParseOutcome::BadCommand(ts[0]),
                            Some(kind) => match flags_and_args_spec(ts.drop_first()) {
                                Err(c) => ParseOutcome::BadFlag(c),
                                Ok(fa) => parse_rec(
                                    segs,
                                    k + 1,
                                    acc.push(CommandModel { name: kind, flags: fa.0, args: fa.1 }),
                                ),
                            },
                        }
                    }
                },
            }
        }
    }
}

/// What parsing the line `input` yields.
pub open spec fn parse_spec(input: Seq<char>) -> ParseOutcome {
    let t = trim_spec(input);
    if t.len() == 0 {
        ParseOutcome::NoInput
    } else {
        parse_rec(split_commands_spec(t), 0, Seq::empty())
    }
}

/// Parses one raw input line into its command list: the line is trimmed,
/// split into segments, and each non-blank segment is tokenized and
/// resolved. The first failure anywhere aborts the whole line; a line that
/// yields no command at all fails with `EmptyInput`.
pub fn parse(input: &str) -> (r: Result<Commands, ParseError>)
    ensures
        (match parse_spec(input@) {
            ParseOutcome::Parsed(models) => r matches Ok(cs) && cs@ == models,
            ParseOutcome::NoInput => r matches Err(e) && e == ParseError::EmptyInput,
            ParseOutcome::OpenQuote => r matches Err(e) && e == ParseError::UnclosedQuote,
            ParseOutcome::BadFlag(c) => r matches Err(e) && e matches ParseError::InvalidFlag(d)
                && d == c,
            ParseOutcome::BadCommand(n) => r matches Err(e) && e
                matches ParseError::UnknownCommand(m) && m@ == n,
        }),
{
    let raw = str_to_chars(input);
    let trimmed = trim_chars(&raw);
    if trimmed.len() == 0 {
        return Err(ParseError::EmptyInput);
    }
    let trimmed_str = chars_to_string(&trimmed);
    let segs = split_commands(trimmed_str.as_str());
    let ghost segs_spec = split_commands_spec(trim_spec(input@));
    let n = segs.len();
    let mut cmds: Vec<Command> = Vec::new();
    let mut k: usize = 0;
    proof {
        assert(models_of(cmds@) =~= Seq::<CommandModel>::empty());
    }
    while k < n
        invariant
            k <= n,
            n == segs@.len(),
            views_of(segs@) == segs_spec,
            trim_spec(input@).len() > 0,
            segs_spec == split_commands_spec(trim_spec(input@)),
            parse_rec(segs_spec, k as int, models_of(cmds@)) == parse_spec(input@),
        decreases n - k,
    {
        let seg_chars = str_to_chars(segs[k].as_str());
        assert(seg_chars@ == segs_spec[k as int]);
        let seg_trimmed = trim_chars(&seg_chars);
        if seg_trimmed.len() == 0 {
            k = k + 1;
            continue;
        }
        let seg_str = chars_to_string(&seg_trimmed);
        match tokenize(seg_str.as_str()) {
            Err(e) => {
                return Err(e);
            },
            Ok(tokens) => {
                if tokens.len() == 0 {
                    k = k + 1;
                    continue;
                }
                let ghost ts = views_of(tokens@);
                assert(ts[0] == tokens@[0]@);
                match command_type_of(&tokens[0]) {
                    None => {
                        return Err(ParseError::UnknownCommand(tokens[0].clone()));
                    },
                    Some(kind) => {
                        let rest = slice_subrange(tokens.as_slice(), 1, tokens.len());
                        assert(views_of(rest@) =~= ts.drop_first());
                        match parse_flags_and_args(rest) {
                            Err(e) => {
                                return Err(e);
                            },
                            Ok(fa) => {
                                let (flags, args) = fa;
                                let ghost prev = models_of(cmds@);
                                let cmd = Command { name: kind, flags, args };
                                cmds.push(cmd);
                                assert(models_of(cmds@) =~= prev.push(cmd@));
                                k = k + 1;
                            },
                        }
                    },
                }
            },
        }
    }
    if cmds.len() == 0 {
        return Err(ParseError::EmptyInput);
    }
    let r = Commands { command: cmds };
    Ok(r)
}

} // verus!
