//! Laws of the parsing pipeline, stated and proved over the same
//! mathematical descriptions that the executable functions are verified
//! against.

use vstd::prelude::*;

use crate::command::CommandModel;
use crate::command::CommandType;
use crate::command::Flag;
use crate::parser::ParseOutcome;
use crate::parser::command_of_name;
use crate::parser::flag_of_char;
use crate::parser::flags_and_args_spec;
use crate::parser::flags_of_token;
use crate::parser::is_flag_token;
use crate::parser::parse_rec;
use crate::parser::parse_spec;
use crate::parser::partition_rec;
use crate::parser::split_commands_spec;
use crate::parser::split_rec;
use crate::parser::tok_rec;
use crate::parser::tokenize_spec;
use crate::text::is_line_space;
use crate::text::lemma_trim_no_space;
use crate::text::lower_seq;
use crate::text::trim_spec;

verus! {

/// A character that the whole pipeline passes through untouched: not
/// whitespace, not a separator, not a quote, not a backslash.
pub open spec fn is_plain_char(c: char) -> bool {
    &&& !is_line_space(c)
    &&& c != ';'
    &&& c != '&'
    &&& c != '|'
    &&& c != '\''
    &&& c != '"'
    &&& c != '\\'
}

/// A non-empty word of plain characters.
pub open spec fn is_plain_word(s: Seq<char>) -> bool {
    s.len() > 0 && (forall|i: int| 0 <= i < s.len() ==> is_plain_char(#[trigger] s[i]))
}

/// On separator-free text the segmenter yields one segment: everything that
/// was scanned, appended to the open segment, kept only when not blank.
proof fn lemma_split_rec_plain(s: Seq<char>, i: int, cur: Seq<char>, acc: Seq<Seq<char>>)
    requires
        0 <= i <= s.len(),
        forall|j: int| i <= j < s.len() ==> is_plain_char(#[trigger] s[j]),
    ensures
        split_rec(s, i, false, false, cur, acc) == (if trim_spec(
            cur + s.subrange(i, s.len() as int),
        ).len() > 0 {
            acc.push(cur + s.subrange(i, s.len() as int))
        } else {
            acc
        }),
    decreases s.len() - i,
{
    if i >= s.len() {
        assert(cur + s.subrange(i, s.len() as int) =~= cur);
    } else {
        lemma_split_rec_plain(s, i + 1, cur.push(s[i]), acc);
        assert(cur.push(s[i]) + s.subrange(i + 1, s.len() as int) =~= cur + s.subrange(
            i,
            s.len() as int,
        ));
    }
}

/// A plain word is one whole segment.
proof fn lemma_split_plain_word(s: Seq<char>)
    requires
        is_plain_word(s),
    ensures
        split_commands_spec(s) == seq![s],
{
    lemma_split_rec_plain(s, 0, Seq::empty(), Seq::empty());
    assert(Seq::<char>::empty() + s.subrange(0, s.len() as int) =~= s);
    assert(forall|j: int| 0 <= j < s.len() ==> !is_line_space(#[trigger] s[j]));
    lemma_trim_no_space(s);
    assert(Seq::<Seq<char>>::empty().push(s) =~= seq![s]);
}

/// On text free of spaces, quotes and backslashes the tokenizer yields one
/// token: everything that was scanned, appended to the open token, kept
/// only when non-empty.
proof fn lemma_tok_rec_plain(s: Seq<char>, i: int, cur: Seq<char>, acc: Seq<Seq<char>>)
    requires
        0 <= i <= s.len(),
        forall|j: int| i <= j < s.len() ==> is_plain_char(#[trigger] s[j]),
    ensures
        tok_rec(s, i, false, false, false, cur, acc) == (if (cur + s.subrange(
            i,
            s.len() as int,
        )).len() > 0 {
            Some(acc.push(cur + s.subrange(i, s.len() as int)))
        } else {
            Some(acc)
        }),
    decreases s.len() - i,
{
    if i >= s.len() {
        assert(cur + s.subrange(i, s.len() as int) =~= cur);
    } else {
        lemma_tok_rec_plain(s, i + 1, cur.push(s[i]), acc);
        assert(cur.push(s[i]) + s.subrange(i + 1, s.len() as int) =~= cur + s.subrange(
            i,
            s.len() as int,
        ));
    }
}

/// A plain word is one whole token.
proof fn lemma_tokenize_plain_word(s: Seq<char>)
    requires
        is_plain_word(s),
    ensures
        tokenize_spec(s) == Some(seq![s]),
{
    lemma_tok_rec_plain(s, 0, Seq::empty(), Seq::empty());
    assert(Seq::<char>::empty() + s.subrange(0, s.len() as int) =~= s);
    assert(Seq::<Seq<char>>::empty().push(s) =~= seq![s]);
}

/// A plain word that names a command parses to exactly that one command,
/// with no flags and no arguments.
proof fn lemma_plain_name_parses(n: Seq<char>, k: CommandType)
    requires
        is_plain_word(n),
        command_of_name(n) == Some(k),
    ensures
        parse_spec(n) == ParseOutcome::Parsed(
            seq![CommandModel { name: k, flags: Seq::empty(), args: Seq::empty() }],
        ),
{
    assert(forall|j: int| 0 <= j < n.len() ==> !is_line_space(#[trigger] n[j]));
    lemma_trim_no_space(n);
    lemma_split_plain_word(n);
    lemma_tokenize_plain_word(n);
    let segs = seq![n];
    let m = CommandModel { name: k, flags: Seq::empty(), args: Seq::empty() };
    assert(segs[0] == n);
    assert(trim_spec(segs[0]) == n);
    assert(seq![n].drop_first() =~= Seq::<Seq<char>>::empty());
    assert(flags_and_args_spec(Seq::<Seq<char>>::empty()) == Ok::<
        (Seq<Flag>, Seq<Seq<char>>),
        char,
    >((Seq::empty(), Seq::empty())));
    assert(parse_rec(segs, 1, Seq::<CommandModel>::empty().push(m)) == ParseOutcome::Parsed(
        Seq::<CommandModel>::empty().push(m),
    ));
    assert(parse_rec(segs, 0, Seq::empty()) == ParseOutcome::Parsed(
        Seq::<CommandModel>::empty().push(m),
    ));
    assert(Seq::<CommandModel>::empty().push(m) =~= seq![m]);
}

/// The name under which the resolver recognizes each command kind.
pub open spec fn name_of(k: CommandType) -> Seq<char> {
    match k {
        CommandType::Echo => "echo"@,
        CommandType::Cd => "cd"@,
        CommandType::Ls => "ls"@,
        CommandType::Pwd => "pwd"@,
        CommandType::Cat => "cat"@,
        CommandType::Cp => "cp"@,
        CommandType::Rm => "rm"@,
        CommandType::Mv => "mv"@,
        CommandType::Mkdir => "mkdir"@,
        CommandType::Exit => "exit"@,
    }
}

/// Law: each name in the fixed command table parses to exactly one command
/// of the matching kind, with an empty flag set and an empty argument
/// sequence.
pub proof fn lemma_table_name_parses(k: CommandType)
    ensures
        parse_spec(name_of(k)) == ParseOutcome::Parsed(
            seq![CommandModel { name: k, flags: Seq::empty(), args: Seq::empty() }],
        ),
{
    reveal_strlit("echo");
    reveal_strlit("cd");
    reveal_strlit("ls");
    reveal_strlit("pwd");
    reveal_strlit("cat");
    reveal_strlit("cp");
    reveal_strlit("rm");
    reveal_strlit("mv");
    reveal_strlit("mkdir");
    reveal_strlit("exit");
    let n = name_of(k);
    assert(is_plain_word(n));
    assert(lower_seq(n) =~= n);
    assert(command_of_name(n) == Some(k));
    lemma_plain_name_parses(n, k);
}

/// No flag occurs twice in `fs`.
pub open spec fn no_duplicate_flags(fs: Seq<Flag>) -> bool {
    forall|i: int, j: int| 0 <= i < j < fs.len() ==> fs[i] != fs[j]
}

/// Collecting the flags of one token keeps the flag sequence free of
/// duplicates.
proof fn lemma_flags_of_token_nodup(t: Seq<char>, j: int, fs: Seq<Flag>)
    requires
        0 <= j <= t.len(),
        no_duplicate_flags(fs),
    ensures
        (match flags_of_token(t, j, fs) {
            Ok(fs2) => no_duplicate_flags(fs2),
            Err(_) => true,
        }),
    decreases t.len() - j,
{
    if j >= t.len() {
    } else {
        match flag_of_char(t[j]) {
            Some(f) => {
                let fs2 = if fs.contains(f) {
                    fs
                } else {
                    fs.push(f)
                };
                if !fs.contains(f) {
                    assert forall|a: int, b: int| 0 <= a < b < fs2.len() implies fs2[a] != fs2[b] by {
                        if b == fs.len() {
                            if fs2[a] == f {
                                assert(fs[a] == f);
                                assert(fs.contains(f));
                            }
                        }
                    }
                }
                lemma_flags_of_token_nodup(t, j + 1, fs2);
            },
            None => {},
        }
    }
}

/// The flag/argument partition keeps the flag sequence free of duplicates.
proof fn lemma_partition_nodup(ts: Seq<Seq<char>>, k: int, fs: Seq<Flag>, args: Seq<Seq<char>>)
    requires
        0 <= k <= ts.len(),
        no_duplicate_flags(fs),
    ensures
        (match partition_rec(ts, k, fs, args) {
            Ok(fa) => no_duplicate_flags(fa.0),
            Err(_) => true,
        }),
    decreases ts.len() - k,
{
    if k >= ts.len() {
    } else {
        if is_flag_token(ts[k]) {
            lemma_flags_of_token_nodup(ts[k], 1, fs);
            match flags_of_token(ts[k], 1, fs) {
                Ok(fs2) => {
                    lemma_partition_nodup(ts, k + 1, fs2, args);
                },
                Err(_) => {},
            }
        } else {
            lemma_partition_nodup(ts, k + 1, fs, args.push(ts[k]));
        }
    }
}

/// Law: the resolver's flag set never holds the same flag twice; repeated
/// flag characters are silently deduplicated.
pub proof fn lemma_flags_no_duplicates(ts: Seq<Seq<char>>, fs: Seq<Flag>, args: Seq<Seq<char>>)
    requires
        flags_and_args_spec(ts) == Ok::<(Seq<Flag>, Seq<Seq<char>>), char>((fs, args)),
    ensures
        no_duplicate_flags(fs),
{
    assert(no_duplicate_flags(Seq::<Flag>::empty()));
    lemma_partition_nodup(ts, 0, Seq::empty(), Seq::empty());
}

/// The orchestrator only ever adds commands whose flag sequences are free
/// of duplicates.
proof fn lemma_parse_rec_nodup(
    segs: Seq<Seq<char>>,
    k: int,
    acc: Seq<CommandModel>,
    ms: Seq<CommandModel>,
)
    requires
        0 <= k <= segs.len(),
        forall|i: int| 0 <= i < acc.len() ==> no_duplicate_flags(#[trigger] acc[i].flags),
        parse_rec(segs, k, acc) == ParseOutcome::Parsed(ms),
    ensures
        forall|i: int| 0 <= i < ms.len() ==> no_duplicate_flags(#[trigger] ms[i].flags),
    decreases segs.len() - k,
{
    if k >= segs.len() {
    } else {
        let seg = trim_spec(segs[k]);
        if seg.len() == 0 {
            lemma_parse_rec_nodup(segs, k + 1, acc, ms);
        } else {
            match tokenize_spec(seg) {
                None => {},
                Some(ts) => {
                    if ts.len() == 0 {
                        lemma_parse_rec_nodup(segs, k + 1, acc, ms);
                    } else {
                        match command_of_name(ts[0]) {
                            None => {},
                            Some(kind) => {
                                match flags_and_args_spec(ts.drop_first()) {
                                    Err(_) => {},
                                    Ok(fa) => {
                                        assert(flags_and_args_spec(ts.drop_first()) == Ok::<
                                            (Seq<Flag>, Seq<Seq<char>>),
                                            char,
                                        >((fa.0, fa.1)));
                                        lemma_flags_no_duplicates(ts.drop_first(), fa.0, fa.1);
                                        let m = CommandModel {
                                            name: kind,
                                            flags: fa.0,
                                            args: fa.1,
                                        };
                                        assert(forall|i: int|
                                            0 <= i < acc.push(m).len() ==> no_duplicate_flags(
                                                #[trigger] acc.push(m)[i].flags,
                                            ));
                                        lemma_parse_rec_nodup(segs, k + 1, acc.push(m), ms);
                                    },
                                }
                            },
                        }
                    }
                },
            }
        }
    }
}

/// Law: in every successfully parsed command list, each command's flag set
/// holds no duplicates.
pub proof fn lemma_parsed_flags_no_duplicates(input: Seq<char>, ms: Seq<CommandModel>)
    requires
        parse_spec(input) == ParseOutcome::Parsed(ms),
    ensures
        forall|i: int| 0 <= i < ms.len() ==> no_duplicate_flags(#[trigger] ms[i].flags),
{
    let t = trim_spec(input);
    lemma_parse_rec_nodup(split_commands_spec(t), 0, Seq::empty(), ms);
}

/// The orchestrator returns a parsed list only when it holds at least one
/// command.
proof fn lemma_parse_rec_nonempty(
    segs: Seq<Seq<char>>,
    k: int,
    acc: Seq<CommandModel>,
    ms: Seq<CommandModel>,
)
    requires
        0 <= k <= segs.len(),
        parse_rec(segs, k, acc) == ParseOutcome::Parsed(ms),
    ensures
        ms.len() > 0,
    decreases segs.len() - k,
{
    if k >= segs.len() {
    } else {
        let seg = trim_spec(segs[k]);
        if seg.len() == 0 {
            lemma_parse_rec_nonempty(segs, k + 1, acc, ms);
        } else {
            match tokenize_spec(seg) {
                None => {},
                Some(ts) => {
                    if ts.len() == 0 {
                        lemma_parse_rec_nonempty(segs, k + 1, acc, ms);
                    } else {
                        match command_of_name(ts[0]) {
                            None => {},
                            Some(kind) => {
                                match flags_and_args_spec(ts.drop_first()) {
                                    Err(_) => {},
                                    Ok(fa) => {
                                        lemma_parse_rec_nonempty(
                                            segs,
                                            k + 1,
                                            acc.push(
                                                CommandModel {
                                                    name: kind,
                                                    flags: fa.0,
                                                    args: fa.1,
                                                },
                                            ),
                                            ms,
                                        );
                                    },
                                }
                            },
                        }
                    }
                },
            }
        }
    }
}

/// Law: a successful parse never yields an empty command list.
pub proof fn lemma_parsed_nonempty(input: Seq<char>, ms: Seq<CommandModel>)
    requires
        parse_spec(input) == ParseOutcome::Parsed(ms),
    ensures
        ms.len() > 0,
{
    let t = trim_spec(input);
    lemma_parse_rec_nonempty(split_commands_spec(t), 0, Seq::empty(), ms);
}

/// Token `t` names flag `f`: it is a clustered short-flag group and one of
/// its characters after the hyphen maps to `f`.
pub open spec fn token_names_flag(t: Seq<char>, f: Flag) -> bool {
    is_flag_token(t) && (exists|i: int|
        1 <= i < t.len() && flag_of_char(#[trigger] t[i]) == Some(f))
}

/// Some token among `ts` names flag `f`.
pub open spec fn tokens_name_flag(ts: Seq<Seq<char>>, f: Flag) -> bool {
    exists|k: int| 0 <= k < ts.len() && token_names_flag(#[trigger] ts[k], f)
}

/// Flag `f` comes out of one token's flag collection exactly when it went
/// in or one of the token's remaining characters names it.
proof fn lemma_flags_of_token_membership(t: Seq<char>, j: int, fs: Seq<Flag>, f: Flag)
    requires
        0 <= j <= t.len(),
    ensures
        (match flags_of_token(t, j, fs) {
            Ok(fs2) => fs2.contains(f) <==> (fs.contains(f) || (exists|i: int|
                j <= i < t.len() && flag_of_char(#[trigger] t[i]) == Some(f))),
            Err(_) => true,
        }),
    decreases t.len() - j,
{
    broadcast use vstd::seq_lib::lemma_seq_contains_after_push;

    if j >= t.len() {
    } else {
        match flag_of_char(t[j]) {
            Some(g) => {
                let fs2 = if fs.contains(g) {
                    fs
                } else {
                    fs.push(g)
                };
                lemma_flags_of_token_membership(t, j + 1, fs2, f);
                assert(fs2.contains(f) <==> (fs.contains(f) || f == g));
                if flag_of_char(t[j]) == Some(f) {
                    assert(j <= j < t.len() && flag_of_char(t[j]) == Some(f));
                }
            },
            None => {},
        }
    }
}

/// Flag `f` comes out of the partition exactly when it went in or one of
/// the remaining tokens names it.
proof fn lemma_partition_membership(
    ts: Seq<Seq<char>>,
    k: int,
    fs: Seq<Flag>,
    args: Seq<Seq<char>>,
    f: Flag,
)
    requires
        0 <= k <= ts.len(),
    ensures
        (match partition_rec(ts, k, fs, args) {
            Ok(fa) => fa.0.contains(f) <==> (fs.contains(f) || (exists|k2: int|
                k <= k2 < ts.len() && token_names_flag(#[trigger] ts[k2], f))),
            Err(_) => true,
        }),
    decreases ts.len() - k,
{
    if k >= ts.len() {
    } else {
        if is_flag_token(ts[k]) {
            lemma_flags_of_token_membership(ts[k], 1, fs, f);
            match flags_of_token(ts[k], 1, fs) {
                Ok(fs2) => {
                    lemma_partition_membership(ts, k + 1, fs2, args, f);
                    if token_names_flag(ts[k], f) {
                        assert(k <= k < ts.len() && token_names_flag(ts[k], f));
                    }
                },
                Err(_) => {},
            }
        } else {
            lemma_partition_membership(ts, k + 1, fs, args.push(ts[k]), f);
        }
    }
}

/// Law: as a set, the resolver's flags are exactly the flags named anywhere
/// in the clustered short-flag tokens, independent of discovery order and
/// of repetition.
pub proof fn lemma_flag_set_membership(ts: Seq<Seq<char>>, fs: Seq<Flag>, args: Seq<Seq<char>>)
    requires
        flags_and_args_spec(ts) == Ok::<(Seq<Flag>, Seq<Seq<char>>), char>((fs, args)),
    ensures
        forall|f: Flag| #[trigger] fs.contains(f) <==> tokens_name_flag(ts, f),
{
    assert forall|f: Flag| #[trigger] fs.contains(f) <==> tokens_name_flag(ts, f) by {
        lemma_partition_membership(ts, 0, Seq::empty(), Seq::empty(), f);
        assert(!Seq::<Flag>::empty().contains(f));
    }
}

/// Keeping a token as a positional argument: it is not a clustered
/// short-flag group.
pub open spec fn non_flag_pred() -> spec_fn(Seq<char>) -> bool {
    |t: Seq<char>| !is_flag_token(t)
}

/// The flag/argument partition appends, to the arguments collected so far,
/// exactly the non-flag tokens that are still to come, in order.
proof fn lemma_partition_args(ts: Seq<Seq<char>>, k: int, fs: Seq<Flag>, args0: Seq<Seq<char>>)
    requires
        0 <= k <= ts.len(),
    ensures
        (match partition_rec(ts, k, fs, args0) {
            Ok(fa) => fa.1 == args0 + ts.subrange(k, ts.len() as int).filter(non_flag_pred()),
            Err(_) => true,
        }),
    decreases ts.len() - k,
{
    broadcast use Seq::lemma_filter_prepend;

    let p = non_flag_pred();
    if k >= ts.len() {
        reveal(Seq::filter);
        assert(ts.subrange(k, ts.len() as int).len() == 0);
        assert(args0 + ts.subrange(k, ts.len() as int).filter(p) =~= args0);
    } else {
        let rest = ts.subrange(k + 1, ts.len() as int);
        assert(ts.subrange(k, ts.len() as int) =~= seq![ts[k]] + rest);
        if is_flag_token(ts[k]) {
            match flags_of_token(ts[k], 1, fs) {
                Ok(fs2) => {
                    lemma_partition_args(ts, k + 1, fs2, args0);
                    assert((seq![ts[k]] + rest).filter(p) == Seq::<Seq<char>>::empty()
                        + rest.filter(p));
                    assert(args0 + (Seq::<Seq<char>>::empty() + rest.filter(p)) =~= args0
                        + rest.filter(p));
                },
                Err(_) => {},
            }
        } else {
            lemma_partition_args(ts, k + 1, fs, args0.push(ts[k]));
            assert((seq![ts[k]] + rest).filter(p) == seq![ts[k]] + rest.filter(p));
            assert(args0.push(ts[k]) + rest.filter(p) =~= args0 + (seq![ts[k]] + rest.filter(p)));
        }
    }
}

/// Law: the positional arguments of a resolved command are exactly its
/// non-flag tokens, kept verbatim in their original left-to-right order.
pub proof fn lemma_args_keep_token_order(ts: Seq<Seq<char>>, fs: Seq<Flag>, args: Seq<Seq<char>>)
    requires
        flags_and_args_spec(ts) == Ok::<(Seq<Flag>, Seq<Seq<char>>), char>((fs, args)),
    ensures
        args == ts.filter(non_flag_pred()),
{
    lemma_partition_args(ts, 0, Seq::empty(), Seq::empty());
    assert(ts.subrange(0, ts.len() as int) =~= ts);
    assert(Seq::<Seq<char>>::empty() + ts.filter(non_flag_pred()) =~= ts.filter(non_flag_pred()));
}

/// Law: parsing is deterministic. One input line has exactly one parse
/// outcome, so two successful parses of the same line yield structurally
/// equal command lists.
pub proof fn lemma_parse_deterministic(
    input: Seq<char>,
    a: Seq<CommandModel>,
    b: Seq<CommandModel>,
)
    requires
        parse_spec(input) == ParseOutcome::Parsed(a),
        parse_spec(input) == ParseOutcome::Parsed(b),
    ensures
        a == b,
{
}

} // verus!
