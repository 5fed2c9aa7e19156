//! What the flags of a command line ask for, one by one.
use vstd::prelude::*;
use vstd::string::*;

use crate::config::{
    asks_for_help, binary_name, comes_to, default_args, equals_at, is_switch, parse_rest,
    parsed_args, takes_value, ArgsRecord, Fault,
};
use crate::model::OperationMode;

verus! {

/// What a command line asks for, whether or not it names a root folder.
pub open spec fn read(args: Seq<Seq<char>>) -> Result<ArgsRecord, Fault> {
    parse_rest(args, 1, default_args(), binary_name(args))
}

proof fn lemma_flags_differ()
    ensures
        takes_value("--path"@),
        takes_value("--output-dir"@),
        takes_value("--keep"@),
        takes_value("--prefer-path"@),
        takes_value("--include"@),
        takes_value("--exclude"@),
        !takes_value("--hash-all-files"@),
        !takes_value("--fast-prefilter"@),
        !takes_value("--apply"@),
        !takes_value("--dry-run"@),
        !takes_value("--resume"@),
        !takes_value("--follow-symlinks"@),
        !takes_value("--use-trash"@),
        is_switch("--hash-all-files"@),
        is_switch("--fast-prefilter"@),
        is_switch("--apply"@),
        is_switch("--dry-run"@),
        is_switch("--resume"@),
        is_switch("--follow-symlinks"@),
        is_switch("--use-trash"@),
{
    reveal_strlit("--path");
    reveal_strlit("--output-dir");
    reveal_strlit("--keep");
    reveal_strlit("--prefer-path");
    reveal_strlit("--include");
    reveal_strlit("--exclude");
    reveal_strlit("--hash-all-files");
    reveal_strlit("--fast-prefilter");
    reveal_strlit("--apply");
    reveal_strlit("--dry-run");
    reveal_strlit("--resume");
    reveal_strlit("--follow-symlinks");
    reveal_strlit("--use-trash");
    assert("--path"@[2] == 'p');
    assert("--output-dir"@[2] == 'o');
    assert("--keep"@[2] == 'k');
    assert("--prefer-path"@[2] == 'p');
    assert("--include"@[2] == 'i');
    assert("--exclude"@[2] == 'e');
    assert("--hash-all-files"@[2] == 'h');
    assert("--fast-prefilter"@[2] == 'f');
    assert("--apply"@[2] == 'a');
    assert("--dry-run"@[2] == 'd');
    assert("--resume"@[2] == 'r');
    assert("--follow-symlinks"@[2] == 'f');
    assert("--use-trash"@[2] == 'u');
}

/// Arguments are read one after the other: those that come first are read as if nothing
/// followed.
proof fn lemma_read_in_turn(
    before: Seq<Seq<char>>,
    more: Seq<Seq<char>>,
    i: int,
    acc: ArgsRecord,
    binary: Seq<char>,
)
    requires
        0 <= i <= before.len(),
        comes_to(before, i, before.len() as int),
    ensures
        parse_rest(before + more, i, acc, binary) == match parse_rest(before, i, acc, binary) {
            Ok(read) => parse_rest(before + more, before.len() as int, read, binary),
            Err(fault) => Err(fault),
        },
    decreases before.len() - i,
{
    let args = before + more;
    if i < before.len() {
        let arg = before[i];
        let at = equals_at(arg);
        assert(args[i] == arg);
        if takes_value(arg) {
            assert(args[i + 1] == before[i + 1]);
            lemma_read_in_turn(before, more, i + 2, acc.with_value(arg, before[i + 1]), binary);
        } else if is_switch(arg) {
            lemma_read_in_turn(before, more, i + 1, acc.with_switch(arg), binary);
        } else if at < arg.len() && takes_value(arg.take(at)) {
            let next = acc.with_value(arg.take(at), arg.skip(at + 1));
            lemma_read_in_turn(before, more, i + 1, next, binary);
        } else {
            let next = ArgsRecord { root_dir: Some(arg), ..acc };
            lemma_read_in_turn(before, more, i + 1, next, binary);
        }
    }
}

/// Without arguments, a command line asks for a dry run with the prefilter that keeps the
/// oldest of equal files: nothing is filtered, followed, moved to the trash or resumed.
pub proof fn law_empty_command_line(binary: Seq<char>)
    ensures
        read(seq![binary]) matches Ok(asked) && {
            &&& asked.root_dir is None
            &&& asked.output_dir is None
            &&& asked.mode == OperationMode::DryRun
            &&& asked.keep_name == "oldest-created"@
            &&& asked.prefer_path is None
            &&& asked.fast_prefilter
            &&& asked.include_filters == Seq::<Seq<char>>::empty()
            &&& asked.exclude_filters == Seq::<Seq<char>>::empty()
            &&& !asked.follow_symlinks
            &&& !asked.use_trash
            &&& !asked.resume
        },
{
}

/// A flag that stands alone sets its own wish, wherever it stands, and leaves the others as
/// the arguments before it asked.
pub proof fn law_switch_sets_its_wish(before: Seq<Seq<char>>, asked: ArgsRecord)
    requires
        before.len() >= 1,
        comes_to(before, 1, before.len() as int),
        read(before) == Ok::<ArgsRecord, Fault>(asked),
    ensures
        read(before.push("--apply"@)) == Ok::<ArgsRecord, Fault>(
            (ArgsRecord { mode: OperationMode::Apply, ..asked }),
        ),
        read(before.push("--dry-run"@)) == Ok::<ArgsRecord, Fault>(
            (ArgsRecord { mode: OperationMode::DryRun, ..asked }),
        ),
        read(before.push("--resume"@)) == Ok::<ArgsRecord, Fault>(
            (ArgsRecord { resume: true, ..asked }),
        ),
        read(before.push("--follow-symlinks"@)) == Ok::<ArgsRecord, Fault>(
            (ArgsRecord { follow_symlinks: true, ..asked }),
        ),
        read(before.push("--use-trash"@)) == Ok::<ArgsRecord, Fault>(
            (ArgsRecord { use_trash: true, ..asked }),
        ),
        read(before.push("--hash-all-files"@)) == Ok::<ArgsRecord, Fault>(
            (ArgsRecord { fast_prefilter: false, ..asked }),
        ),
        read(before.push("--fast-prefilter"@)) == Ok::<ArgsRecord, Fault>(
            (ArgsRecord { fast_prefilter: true, ..asked }),
        ),
{
    lemma_flags_differ();
    lemma_switches_differ();
    lemma_one_more_switch(before, "--apply"@, asked);
    lemma_one_more_switch(before, "--dry-run"@, asked);
    lemma_one_more_switch(before, "--resume"@, asked);
    lemma_one_more_switch(before, "--follow-symlinks"@, asked);
    lemma_one_more_switch(before, "--use-trash"@, asked);
    lemma_one_more_switch(before, "--hash-all-files"@, asked);
    lemma_one_more_switch(before, "--fast-prefilter"@, asked);
}

proof fn lemma_switches_differ()
    ensures
        "--apply"@ != "--hash-all-files"@,
        "--dry-run"@ != "--hash-all-files"@,
        "--dry-run"@ != "--apply"@,
        "--resume"@ != "--hash-all-files"@,
        "--resume"@ != "--apply"@,
        "--resume"@ != "--dry-run"@,
        "--follow-symlinks"@ != "--hash-all-files"@,
        "--follow-symlinks"@ != "--apply"@,
        "--follow-symlinks"@ != "--dry-run"@,
        "--follow-symlinks"@ != "--resume"@,
        "--use-trash"@ != "--hash-all-files"@,
        "--use-trash"@ != "--apply"@,
        "--use-trash"@ != "--dry-run"@,
        "--use-trash"@ != "--resume"@,
        "--use-trash"@ != "--follow-symlinks"@,
        "--fast-prefilter"@ != "--hash-all-files"@,
        "--fast-prefilter"@ != "--apply"@,
        "--fast-prefilter"@ != "--dry-run"@,
        "--fast-prefilter"@ != "--resume"@,
        "--fast-prefilter"@ != "--follow-symlinks"@,
        "--fast-prefilter"@ != "--use-trash"@,
{
    reveal_strlit("--hash-all-files");
    reveal_strlit("--fast-prefilter");
    reveal_strlit("--apply");
    reveal_strlit("--dry-run");
    reveal_strlit("--resume");
    reveal_strlit("--follow-symlinks");
    reveal_strlit("--use-trash");
    assert("--apply"@[2] == 'a');
    assert("--dry-run"@[2] == 'd');
    assert("--resume"@[2] == 'r');
    assert("--hash-all-files"@[2] == 'h');
    assert("--use-trash"@[2] == 'u');
    assert("--fast-prefilter"@[3] == 'a');
    assert("--follow-symlinks"@[3] == 'o');
}

proof fn lemma_one_more_switch(before: Seq<Seq<char>>, flag: Seq<char>, asked: ArgsRecord)
    requires
        before.len() >= 1,
        comes_to(before, 1, before.len() as int),
        read(before) == Ok::<ArgsRecord, Fault>(asked),
        is_switch(flag),
        !takes_value(flag),
    ensures
        read(before.push(flag)) == Ok::<ArgsRecord, Fault>(asked.with_switch(flag)),
{
    let args = before + seq![flag];
    let n = before.len() as int;
    assert(args =~= before.push(flag));
    assert(args[0] == before[0]);
    lemma_read_in_turn(before, seq![flag], 1, default_args(), binary_name(before));
    assert(args[n] == flag);
    let all = parse_rest(args, n, asked, binary_name(args));
    assert(all == parse_rest(args, n + 1, asked.with_switch(flag), binary_name(args)));
}

proof fn lemma_values_differ()
    ensures
        "--output-dir"@ != "--path"@,
        "--keep"@ != "--path"@,
        "--keep"@ != "--output-dir"@,
        "--prefer-path"@ != "--path"@,
        "--prefer-path"@ != "--output-dir"@,
        "--prefer-path"@ != "--keep"@,
        "--include"@ != "--path"@,
        "--include"@ != "--output-dir"@,
        "--include"@ != "--keep"@,
        "--include"@ != "--prefer-path"@,
        "--exclude"@ != "--path"@,
        "--exclude"@ != "--output-dir"@,
        "--exclude"@ != "--keep"@,
        "--exclude"@ != "--prefer-path"@,
        "--exclude"@ != "--include"@,
{
    reveal_strlit("--path");
    reveal_strlit("--output-dir");
    reveal_strlit("--keep");
    reveal_strlit("--prefer-path");
    reveal_strlit("--include");
    reveal_strlit("--exclude");
    assert("--path"@[2] == 'p');
    assert("--prefer-path"@[3] == 'r');
    assert("--path"@[3] == 'a');
    assert("--keep"@[2] == 'k');
    assert("--output-dir"@[2] == 'o');
    assert("--include"@[2] == 'i');
    assert("--exclude"@[2] == 'e');
}

proof fn lemma_one_more_value(
    before: Seq<Seq<char>>,
    flag: Seq<char>,
    value: Seq<char>,
    asked: ArgsRecord,
)
    requires
        before.len() >= 1,
        comes_to(before, 1, before.len() as int),
        read(before) == Ok::<ArgsRecord, Fault>(asked),
        takes_value(flag),
    ensures
        read(before.push(flag).push(value)) == Ok::<ArgsRecord, Fault>(
            asked.with_value(flag, value),
        ),
{
    let args = before + seq![flag, value];
    let n = before.len() as int;
    assert(args =~= before.push(flag).push(value));
    assert(args[0] == before[0]);
    lemma_read_in_turn(before, seq![flag, value], 1, default_args(), binary_name(before));
    assert(args[n] == flag);
    assert(args[n + 1] == value);
    let all = parse_rest(args, n, asked, binary_name(args));
    assert(all == parse_rest(args, n + 2, asked.with_value(flag, value), binary_name(args)));
}

/// A flag that takes a value sets its own wish to the value, wherever it stands, and leaves
/// the others as the arguments before it asked. Filters add up, in their order; of the
/// other flags the last one counts.
pub proof fn law_value_sets_its_wish(
    before: Seq<Seq<char>>,
    value: Seq<char>,
    asked: ArgsRecord,
)
    requires
        before.len() >= 1,
        comes_to(before, 1, before.len() as int),
        read(before) == Ok::<ArgsRecord, Fault>(asked),
    ensures
        read(before.push("--path"@).push(value)) == Ok::<ArgsRecord, Fault>(
            (ArgsRecord { root_dir: Some(value), ..asked }),
        ),
        read(before.push("--output-dir"@).push(value)) == Ok::<ArgsRecord, Fault>(
            (ArgsRecord { output_dir: Some(value), ..asked }),
        ),
        read(before.push("--keep"@).push(value)) == Ok::<ArgsRecord, Fault>(
            (ArgsRecord { keep_name: value, ..asked }),
        ),
        read(before.push("--prefer-path"@).push(value)) == Ok::<ArgsRecord, Fault>(
            (ArgsRecord { prefer_path: Some(value), ..asked }),
        ),
        read(before.push("--include"@).push(value)) == Ok::<ArgsRecord, Fault>(
            (ArgsRecord { include_filters: asked.include_filters.push(value), ..asked }),
        ),
        read(before.push("--exclude"@).push(value)) == Ok::<ArgsRecord, Fault>(
            (ArgsRecord { exclude_filters: asked.exclude_filters.push(value), ..asked }),
        ),
{
    lemma_flags_differ();
    lemma_values_differ();
    lemma_one_more_value(before, "--path"@, value, asked);
    lemma_one_more_value(before, "--output-dir"@, value, asked);
    lemma_one_more_value(before, "--keep"@, value, asked);
    lemma_one_more_value(before, "--prefer-path"@, value, asked);
    lemma_one_more_value(before, "--include"@, value, asked);
    lemma_one_more_value(before, "--exclude"@, value, asked);
}

proof fn lemma_one_more_argument(
    before: Seq<Seq<char>>,
    arg: Seq<char>,
    asked: ArgsRecord,
)
    requires
        before.len() >= 1,
        comes_to(before, 1, before.len() as int),
        read(before) == Ok::<ArgsRecord, Fault>(asked),
    ensures
        read(before.push(arg)) == parse_rest(
            before.push(arg),
            before.len() as int,
            asked,
            before[0],
        ),
        before.push(arg)[before.len() as int] == arg,
{
    assert(before + seq![arg] =~= before.push(arg));
    assert(before.push(arg)[0] == before[0]);
    lemma_read_in_turn(before, seq![arg], 1, default_args(), binary_name(before));
}

/// A text that begins with no dash names the root folder; a second such text is refused.
pub proof fn law_bare_text_names_the_root(
    before: Seq<Seq<char>>,
    text: Seq<char>,
    asked: ArgsRecord,
)
    requires
        before.len() >= 1,
        comes_to(before, 1, before.len() as int),
        read(before) == Ok::<ArgsRecord, Fault>(asked),
        text.len() == 0 || text[0] != '-',
    ensures
        asked.root_dir is None ==> read(before.push(text)) == Ok::<ArgsRecord, Fault>(
            (ArgsRecord { root_dir: Some(text), ..asked }),
        ),
        asked.root_dir is Some ==> read(before.push(text)) == Err::<ArgsRecord, Fault>(
            Fault::UnexpectedArgument { value: text, binary: before[0] },
        ),
{
    let at = equals_at(text);
    lemma_flags_begin_with_dashes(text);
    if at < text.len() {
        lemma_equals_within(text);
        lemma_flags_begin_with_dashes(text.take(at));
        if takes_value(text.take(at)) {
            assert(text.take(at)[0] == text[0]);
        }
    }
    lemma_one_more_argument(before, text, asked);
    let args = before.push(text);
    let next = ArgsRecord { root_dir: Some(text), ..asked };
    assert(parse_rest(args, before.len() as int + 1, next, before[0]) == Ok::<ArgsRecord, Fault>(
        next,
    ));
}

proof fn lemma_equals_within(s: Seq<char>)
    ensures
        0 <= equals_at(s) <= s.len(),
    decreases s.len(),
{
    if s.len() > 0 && s[0] != '=' {
        lemma_equals_within(s.drop_first());
    }
}

proof fn lemma_flags_begin_with_dashes(flag: Seq<char>)
    ensures
        takes_value(flag) || is_switch(flag) ==> flag.len() > 2 && flag[0] == '-',
{
    reveal_strlit("--path");
    reveal_strlit("--output-dir");
    reveal_strlit("--keep");
    reveal_strlit("--prefer-path");
    reveal_strlit("--include");
    reveal_strlit("--exclude");
    reveal_strlit("--hash-all-files");
    reveal_strlit("--fast-prefilter");
    reveal_strlit("--apply");
    reveal_strlit("--dry-run");
    reveal_strlit("--resume");
    reveal_strlit("--follow-symlinks");
    reveal_strlit("--use-trash");
}

/// Whether a text is one of the flags that a value follows.
pub open spec fn is_value_flag(text: Seq<char>) -> bool {
    seq![
        "--path"@,
        "--output-dir"@,
        "--keep"@,
        "--prefer-path"@,
        "--include"@,
        "--exclude"@,
    ].contains(text)
}

/// Whether a text is one of the flags that stand alone.
pub open spec fn is_lone_flag(text: Seq<char>) -> bool {
    seq![
        "--apply"@,
        "--dry-run"@,
        "--resume"@,
        "--follow-symlinks"@,
        "--use-trash"@,
        "--hash-all-files"@,
        "--fast-prefilter"@,
    ].contains(text)
}

proof fn lemma_listed_flags(text: Seq<char>)
    ensures
        takes_value(text) == is_value_flag(text),
        is_switch(text) == is_lone_flag(text),
{
    let values = seq![
        "--path"@,
        "--output-dir"@,
        "--keep"@,
        "--prefer-path"@,
        "--include"@,
        "--exclude"@,
    ];
    let lone = seq![
        "--apply"@,
        "--dry-run"@,
        "--resume"@,
        "--follow-symlinks"@,
        "--use-trash"@,
        "--hash-all-files"@,
        "--fast-prefilter"@,
    ];
    assert(values[0] == "--path"@ && values[1] == "--output-dir"@ && values[2] == "--keep"@
        && values[3] == "--prefer-path"@ && values[4] == "--include"@ && values[5]
        == "--exclude"@);
    assert(lone[0] == "--apply"@ && lone[1] == "--dry-run"@ && lone[2] == "--resume"@ && lone[3]
        == "--follow-symlinks"@ && lone[4] == "--use-trash"@ && lone[5] == "--hash-all-files"@
        && lone[6] == "--fast-prefilter"@);
}

/// Whether a text begins with a dash, but is no flag, nor a flag and a value with `=` between
/// them.
pub open spec fn is_unknown(text: Seq<char>) -> bool {
    &&& text.len() > 0
    &&& text[0] == '-'
    &&& !is_value_flag(text)
    &&& !is_lone_flag(text)
    &&& forall|at: int| #![trigger text[at]]
        0 <= at < text.len() && text[at] == '=' ==> !is_value_flag(text.take(at))
}

proof fn lemma_equals_there(s: Seq<char>)
    requires
        equals_at(s) < s.len(),
    ensures
        0 <= equals_at(s),
        s[equals_at(s)] == '=',
    decreases s.len(),
{
    if s.len() > 0 && s[0] != '=' {
        lemma_equals_there(s.drop_first());
    }
}

/// A text with a dash that is no flag is refused, and so is a flag whose value is missing.
pub proof fn law_refused_arguments(
    before: Seq<Seq<char>>,
    text: Seq<char>,
    asked: ArgsRecord,
)
    requires
        before.len() >= 1,
        comes_to(before, 1, before.len() as int),
        read(before) == Ok::<ArgsRecord, Fault>(asked),
    ensures
        is_unknown(text) ==> read(before.push(text)) == Err::<ArgsRecord, Fault>(
            Fault::UnknownFlag { flag: text, binary: before[0] },
        ),
        is_value_flag(text) ==> read(before.push(text)) == Err::<ArgsRecord, Fault>(
            Fault::MissingValue { flag: text, binary: before[0] },
        ),
{
    lemma_one_more_argument(before, text, asked);
    lemma_listed_flags(text);
    let at = equals_at(text);
    if is_unknown(text) && at < text.len() {
        lemma_equals_there(text);
        lemma_listed_flags(text.take(at));
        assert(text[at] == '=');
    }
}

/// What is refused stays refused, with the same fault, whatever follows.
pub proof fn law_refusals_stay(before: Seq<Seq<char>>, more: Seq<Seq<char>>, fault: Fault)
    requires
        before.len() >= 1,
        comes_to(before, 1, before.len() as int),
        read(before) == Err::<ArgsRecord, Fault>(fault),
    ensures
        parsed_args(before + more) == Err::<ArgsRecord, Fault>(fault),
{
    assert((before + more)[0] == before[0]);
    lemma_read_in_turn(before, more, 1, default_args(), binary_name(before));
}

/// A command line that is read asks for what was read, where it names a root folder; where
/// it names none, it is refused.
pub proof fn law_root_is_required(args: Seq<Seq<char>>)
    ensures
        match read(args) {
            Ok(asked) => match asked.root_dir {
                Some(_) => parsed_args(args) == Ok::<ArgsRecord, Fault>(asked),
                None => parsed_args(args) matches Err(fault) && fault is MissingRoot,
            },
            Err(fault) => parsed_args(args) == Err::<ArgsRecord, Fault>(fault),
        },
{
}

proof fn lemma_comes_further(args: Seq<Seq<char>>, i: int, k: int, n: int)
    requires
        comes_to(args, i, k),
        comes_to(args, k, n),
    ensures
        comes_to(args, i, n),
    decreases k - i,
{
    if i < k {
        if takes_value(args[i]) {
            lemma_comes_further(args, i + 2, k, n);
        } else {
            lemma_comes_further(args, i + 1, k, n);
        }
        lemma_comes_on(args, k, n);
    }
}

proof fn lemma_comes_on(args: Seq<Seq<char>>, i: int, n: int)
    requires
        comes_to(args, i, n),
    ensures
        i <= n,
    decreases n - i,
{
    if i < n {
        if takes_value(args[i]) {
            lemma_comes_on(args, i + 2, n);
        } else {
            lemma_comes_on(args, i + 1, n);
        }
    }
}

/// Reading comes to a place with what the arguments before it asked for, or refuses them.
proof fn lemma_read_up_to(
    args: Seq<Seq<char>>,
    i: int,
    k: int,
    acc: ArgsRecord,
    binary: Seq<char>,
) -> (asked: ArgsRecord)
    requires
        0 <= i <= k <= args.len(),
        comes_to(args, i, k),
    ensures
        ({
            let whole = parse_rest(args, i, acc, binary);
            whole is Ok ==> whole == parse_rest(args, k, asked, binary)
        }),
    decreases k - i,
{
    if i == k {
        acc
    } else {
        let arg = args[i];
        let at = equals_at(arg);
        if takes_value(arg) {
            lemma_comes_on(args, i + 2, k);
            lemma_read_up_to(args, i + 2, k, acc.with_value(arg, args[i + 1]), binary)
        } else if is_switch(arg) {
            lemma_read_up_to(args, i + 1, k, acc.with_switch(arg), binary)
        } else if at < arg.len() && takes_value(arg.take(at)) {
            let next = acc.with_value(arg.take(at), arg.skip(at + 1));
            lemma_read_up_to(args, i + 1, k, next, binary)
        } else {
            let next = ArgsRecord { root_dir: Some(arg), ..acc };
            lemma_read_up_to(args, i + 1, k, next, binary)
        }
    }
}

/// The flag that asks for the other mode.
pub open spec fn opposite_flag(mode: OperationMode) -> Seq<char> {
    match mode {
        OperationMode::Apply => "--dry-run"@,
        OperationMode::DryRun => "--apply"@,
    }
}

proof fn lemma_mode_stays(args: Seq<Seq<char>>, i: int, acc: ArgsRecord, binary: Seq<char>)
    requires
        0 <= i,
        forall|j: int| i <= j < args.len() && #[trigger] comes_to(args, i, j) ==> args[j]
            != opposite_flag(acc.mode),
    ensures
        parse_rest(args, i, acc, binary) matches Ok(asked) ==> asked.mode == acc.mode,
    decreases args.len() - i,
{
    if i < args.len() {
        let arg = args[i];
        let at = equals_at(arg);
        assert(comes_to(args, i, i));
        if takes_value(arg) {
            if i + 1 < args.len() {
                let next = acc.with_value(arg, args[i + 1]);
                assert forall|j: int| i + 2 <= j < args.len() && #[trigger] comes_to(
                    args,
                    i + 2,
                    j,
                ) implies args[j] != opposite_flag(next.mode) by {
                    assert(comes_to(args, i, j));
                }
                lemma_mode_stays(args, i + 2, next, binary);
            }
        } else {
            assert forall|j: int| i + 1 <= j < args.len() && #[trigger] comes_to(
                args,
                i + 1,
                j,
            ) implies args[j] != opposite_flag(acc.mode) by {
                assert(comes_to(args, i, j));
            }
            if is_switch(arg) {
                lemma_switches_differ();
                lemma_mode_stays(args, i + 1, acc.with_switch(arg), binary);
            } else if at < arg.len() && takes_value(arg.take(at)) {
                let next = acc.with_value(arg.take(at), arg.skip(at + 1));
                lemma_mode_stays(args, i + 1, next, binary);
            } else {
                let next = ArgsRecord { root_dir: Some(arg), ..acc };
                lemma_mode_stays(args, i + 1, next, binary);
            }
        }
    }
}

/// The last of `--apply` and `--dry-run` that is read as a flag decides whether files are
/// deleted: with `--apply` they are, with `--dry-run` they are not.
pub proof fn law_last_mode_flag_decides(args: Seq<Seq<char>>, k: int, mode: OperationMode)
    requires
        1 <= k < args.len(),
        comes_to(args, 1, k),
        args[k] == match mode {
            OperationMode::Apply => "--apply"@,
            OperationMode::DryRun => "--dry-run"@,
        },
        forall|j: int| k < j < args.len() && #[trigger] comes_to(args, 1, j) ==> args[j]
            != opposite_flag(mode),
    ensures
        parsed_args(args) matches Ok(asked) ==> asked.mode == mode,
{
    let binary = binary_name(args);
    let asked = lemma_read_up_to(args, 1, k, default_args(), binary);
    lemma_flags_differ();
    lemma_switches_differ();
    let next = asked.with_switch(args[k]);
    assert(comes_to(args, k, k + 1)) by {
        assert(comes_to(args, k + 1, k + 1));
    }
    lemma_comes_further(args, 1, k, k + 1);
    assert forall|j: int| k + 1 <= j < args.len() && #[trigger] comes_to(
        args,
        k + 1,
        j,
    ) implies args[j] != opposite_flag(next.mode) by {
        lemma_comes_further(args, 1, k + 1, j);
    }
    lemma_mode_stays(args, k + 1, next, binary);
}

/// Help is asked for exactly where one of the two texts stands among the arguments,
/// wherever it stands.
pub proof fn law_help_is_asked_for(args: Seq<Seq<char>>)
    ensures
        asks_for_help(args) <==> args.contains("--help"@) || args.contains("-h"@),
{
    if asks_for_help(args) {
        let i = choose|i: int|
            0 <= i < args.len() && (#[trigger] args[i] == "--help"@ || args[i] == "-h"@);
        assert(args.contains(args[i]));
    }
}

} // verus!
