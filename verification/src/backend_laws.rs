//! What holds of all arguments, commands and files.

use crate::backend;
use crate::backend::Argument;
use crate::backend::Backend;
use crate::backend::Detection;
use crate::backend::FetchView;
use crate::backend::FileFetcher;
use crate::backend::RepositoryMarkers;
use crate::text;
use vstd::prelude::*;

verus! {

broadcast use vstd::seq::group_seq_axioms;

// ---------------------------------------------------------------------------
// Detection
// ---------------------------------------------------------------------------

/// Outside all repositories the plain command is called for. A directory that
/// holds a repository decides, and Git goes first; one that holds none leaves it
/// to the directories above it.
pub proof fn lemma_nearest_repository_decides(
    nearest: RepositoryMarkers,
    farther: Seq<RepositoryMarkers>,
    detection: Detection,
)
    requires
        farther.len() < usize::MAX,
    ensures
        backend::detected(Seq::empty(), detection) <==> detection == (Detection {
            backend: Backend::PlainDiff,
            root: None,
        }),
        nearest.git ==> (backend::detected(seq![nearest] + farther, detection) <==> detection == (
        Detection { backend: Backend::Git, root: Some(0) })),
        !nearest.git && nearest.hg ==> (backend::detected(seq![nearest] + farther, detection)
            <==> detection == (Detection { backend: Backend::Hg, root: Some(0) })),
        !nearest.git && !nearest.hg ==> (backend::detected(farther, detection) ==> ({
            let moved = Detection {
                backend: detection.backend,
                root: match detection.root {
                    Some(root) => Some((root + 1) as usize),
                    None => None,
                },
            };
            backend::detected(seq![nearest] + farther, moved)
        })),
{
    let all = seq![nearest] + farther;
    assert(all[0] == nearest);
    if !nearest.git && !nearest.hg && backend::detected(farther, detection) {
        match detection.root {
            Some(root) => {
                assert(all[root + 1] == farther[root as int]);
                assert forall|i: int| 0 <= i < root + 1 implies !backend::is_root(
                    #[trigger] all[i],
                ) by {
                    if i > 0 {
                        assert(all[i] == farther[i - 1]);
                    }
                }
            },
            None => {
                assert forall|i: int| 0 <= i < all.len() implies !backend::is_root(
                    #[trigger] all[i],
                ) by {
                    if i > 0 {
                        assert(all[i] == farther[i - 1]);
                    }
                }
            },
        }
    }
    if nearest.git || nearest.hg {
        let found = Detection {
            backend: if nearest.git {
                Backend::Git
            } else {
                Backend::Hg
            },
            root: Some(0),
        };
        assert(backend::detected(all, found));
        if backend::detected(all, detection) {
            backend::lemma_detection_is_unique(all, found, detection);
        }
    }
}

// ---------------------------------------------------------------------------
// Commands
// ---------------------------------------------------------------------------

/// A word that a shell takes as it is stays as it is; any other is put in quotes.
pub proof fn lemma_only_other_words_are_quoted(value: Seq<char>)
    ensures
        value.len() > 0 && (forall|i: int|
            0 <= i < value.len() ==> ('a' <= #[trigger] value[i] <= 'z' || 'A' <= value[i] <= 'Z'
                || '0' <= value[i] <= '9' || value[i] == '/' || value[i] == '.' || value[i] == '_'
                || value[i] == '-' || value[i] == ':' || value[i] == '=')) ==> backend::quoted(
            value,
        ) == value,
        (exists|i: int|
            0 <= i < value.len() && (#[trigger] value[i] == ' ' || value[i] == '\'' || value[i]
                == '"' || value[i] == '\\' || value[i] == '$' || value[i] == '`' || value[i] == '*'
                || value[i] == '?' || value[i] == '&' || value[i] == '|' || value[i] == ';'
                || value[i] == '<' || value[i] == '>' || value[i] == '(' || value[i] == ')'
                || value[i] == '~' || value[i] == '#' || value[i] == '!' || value[i] == '\n'))
            ==> backend::quoted(value)[0] == '\'' && backend::quoted(value).last() == '\'',
        value.len() == 0 ==> backend::quoted(value) == seq!['\'', '\''],
{
    if value.len() == 0 {
        assert(backend::quoted(value) =~= seq!['\'', '\'']);
    }
    if exists|i: int|
        0 <= i < value.len() && (#[trigger] value[i] == ' ' || value[i] == '\'' || value[i] == '"'
            || value[i] == '\\' || value[i] == '$' || value[i] == '`' || value[i] == '*'
            || value[i] == '?' || value[i] == '&' || value[i] == '|' || value[i] == ';'
            || value[i] == '<' || value[i] == '>' || value[i] == '(' || value[i] == ')'
            || value[i] == '~' || value[i] == '#' || value[i] == '!' || value[i] == '\n') {
        let i = choose|i: int|
            0 <= i < value.len() && (#[trigger] value[i] == ' ' || value[i] == '\'' || value[i]
                == '"' || value[i] == '\\' || value[i] == '$' || value[i] == '`' || value[i] == '*'
                || value[i] == '?' || value[i] == '&' || value[i] == '|' || value[i] == ';'
                || value[i] == '<' || value[i] == '>' || value[i] == '(' || value[i] == ')'
                || value[i] == '~' || value[i] == '#' || value[i] == '!' || value[i] == '\n');
        assert(!backend::is_safe(value[i]));
        assert(!backend::all_safe(value));
    }
}

/// The arguments of the user follow those of the command, in their order and
/// each quoted.
pub proof fn lemma_arguments_are_passed_on(
    backend: Backend,
    args: Seq<Seq<char>>,
    arg: Seq<char>,
)
    ensures
        backend.preview_words(Seq::empty()) == seq![backend.program()] + backend.fixed_args(),
        backend.preview_words(args.push(arg)) == backend.preview_words(args).push(
            backend::quoted(arg),
        ),
        backend.fixed_args().len() > 0 ==> backend.fixed_args().last() == "diff"@,
{
    assert(backend.preview_words(Seq::empty()) =~= seq![backend.program()] + backend.fixed_args());
    assert(backend.preview_words(args.push(arg)) =~= backend.preview_words(args).push(
        backend::quoted(arg),
    ));
}

// ---------------------------------------------------------------------------
// Arguments
// ---------------------------------------------------------------------------

/// Flags are taken out one by one: an argument that is the flag is gone, any
/// other stays where it is, whatever the others are.
pub proof fn lemma_flags_are_taken_one_by_one<R>(
    before: Seq<Argument<R>>,
    arg: Argument<R>,
    behind: Seq<Argument<R>>,
    flag: Seq<char>,
)
    ensures
        backend::without_flag(before + seq![arg] + behind, flag) == backend::without_flag(
            before,
            flag,
        ) + (if arg.text@ == flag {
            Seq::empty()
        } else {
            seq![arg]
        }) + backend::without_flag(behind, flag),
        backend::flag_given(backend::argument_texts(before + seq![arg] + behind), flag) == (
        backend::flag_given(backend::argument_texts(before), flag) || arg.text@ == flag
            || backend::flag_given(backend::argument_texts(behind), flag)),
    decreases behind.len(),
{
    let all = before + seq![arg] + behind;
    let middle = if arg.text@ == flag {
        Seq::empty()
    } else {
        seq![arg]
    };
    lemma_flag_among(before, arg, behind, flag);
    if behind.len() == 0 {
        assert(all.drop_last() =~= before);
        assert(all.last() == arg);
        assert(backend::without_flag(all, flag) =~= backend::without_flag(before, flag) + middle
            + backend::without_flag(behind, flag));
    } else {
        assert(all.drop_last() =~= before + seq![arg] + behind.drop_last());
        assert(all.last() == behind.last());
        lemma_flags_are_taken_one_by_one(before, arg, behind.drop_last(), flag);
        assert(backend::without_flag(all, flag) =~= backend::without_flag(before, flag) + middle
            + backend::without_flag(behind, flag));
    }
}

proof fn lemma_flag_among<R>(
    before: Seq<Argument<R>>,
    arg: Argument<R>,
    behind: Seq<Argument<R>>,
    flag: Seq<char>,
)
    ensures
        backend::flag_given(backend::argument_texts(before + seq![arg] + behind), flag) == (
        backend::flag_given(backend::argument_texts(before), flag) || arg.text@ == flag
            || backend::flag_given(backend::argument_texts(behind), flag)),
{
    let left = backend::argument_texts(before);
    let right = backend::argument_texts(behind);
    let all = backend::argument_texts(before + seq![arg] + behind);
    assert(all =~= left + seq![arg.text@] + right);
    if backend::flag_given(left, flag) {
        let i = choose|i: int| 0 <= i < left.len() && #[trigger] left[i] == flag;
        assert(all[i] == flag);
    }
    if arg.text@ == flag {
        assert(all[left.len() as int] == flag);
    }
    if backend::flag_given(right, flag) {
        let i = choose|i: int| 0 <= i < right.len() && #[trigger] right[i] == flag;
        assert(all[left.len() + 1 + i] == flag);
    }
    if backend::flag_given(all, flag) {
        let i = choose|i: int| 0 <= i < all.len() && #[trigger] all[i] == flag;
        if i < left.len() {
            assert(left[i] == flag);
        } else if i > left.len() {
            assert(right[i - left.len() - 1] == flag);
        }
    }
}

/// Whether `arg` has nothing to do with `flags`: it is none of them, and does not
/// give one a value behind an equals sign.
pub open spec fn is_other_argument(arg: Seq<char>, flags: Seq<Seq<char>>) -> bool {
    forall|j: int|
        0 <= j < flags.len() ==> arg != #[trigger] flags[j] && !(arg.len() > flags[j].len()
            && arg.take(flags[j].len() as int) == flags[j] && arg[flags[j].len() as int] == '=')
}

proof fn lemma_no_value(arg: Seq<char>, flags: Seq<Seq<char>>)
    requires
        is_other_argument(arg, flags),
    ensures
        backend::value_in(arg, flags) is None,
        !backend::flag_given(flags, arg),
    decreases flags.len(),
{
    if flags.len() > 0 {
        let rest = flags.drop_first();
        assert forall|j: int| 0 <= j < rest.len() implies arg != #[trigger] rest[j] && !(arg.len()
            > rest[j].len() && arg.take(rest[j].len() as int) == rest[j]
            && arg[rest[j].len() as int] == '=') by {
            assert(rest[j] == flags[j + 1]);
        }
        lemma_no_value(arg, rest);
        reveal_strlit("=");
        let start = flags[0] + "="@;
        if text::occurs_at(arg, 0, start) {
            let found = arg.subrange(0, start.len() as int);
            assert(found[flags[0].len() as int] == '=');
            assert(arg[flags[0].len() as int] == '=');
            assert(arg.take(flags[0].len() as int) =~= flags[0]) by {
                assert forall|i: int| 0 <= i < flags[0].len() implies arg[i] == flags[0][i] by {
                    assert(found[i] == start[i]);
                }
            }
            assert(arg != flags[0]);
        }
    }
}

proof fn lemma_others_change_nothing(
    args: Seq<Seq<char>>,
    flags: Seq<Seq<char>>,
    index: int,
    found: Option<Seq<char>>,
)
    requires
        0 <= index <= args.len(),
        forall|i: int| index <= i < args.len() ==> is_other_argument(#[trigger] args[i], flags),
    ensures
        backend::last_value(args, flags, index, found) == found,
    decreases args.len() - index,
{
    if index < args.len() {
        lemma_no_value(args[index], flags);
        lemma_others_change_nothing(args, flags, index + 1, found);
    }
}

proof fn lemma_others_are_passed_over(
    args: Seq<Seq<char>>,
    flags: Seq<Seq<char>>,
    index: int,
    end: int,
    found: Option<Seq<char>>,
)
    requires
        0 <= index <= end <= args.len(),
        forall|i: int| index <= i < end ==> is_other_argument(#[trigger] args[i], flags),
    ensures
        backend::last_value(args, flags, index, found) == backend::last_value(
            args,
            flags,
            end,
            found,
        ),
    decreases end - index,
{
    if index < end {
        lemma_no_value(args[index], flags);
        lemma_others_are_passed_over(args, flags, index + 1, end, found);
    }
}

/// Arguments that have nothing to do with the flags give no value.
pub proof fn lemma_no_flag_no_value(args: Seq<Seq<char>>, flags: Seq<Seq<char>>)
    requires
        forall|i: int| 0 <= i < args.len() ==> is_other_argument(#[trigger] args[i], flags),
    ensures
        backend::last_value(args, flags, 0, None) is None,
{
    lemma_others_change_nothing(args, flags, 0, None);
}

/// A flag is given the argument behind it, or what stands behind an equals sign
/// in the same argument, wherever it stands among arguments that have nothing to
/// do with it. A flag at the very end is given nothing.
pub proof fn lemma_flag_is_given_value(
    before: Seq<Seq<char>>,
    flags: Seq<Seq<char>>,
    k: int,
    value: Seq<char>,
    behind: Seq<Seq<char>>,
)
    requires
        0 <= k < flags.len(),
        forall|i: int| 0 <= i < before.len() ==> is_other_argument(#[trigger] before[i], flags),
        forall|i: int| 0 <= i < behind.len() ==> is_other_argument(#[trigger] behind[i], flags),
    ensures
        backend::last_value(before + seq![flags[k], value] + behind, flags, 0, None) == Some(value),
        backend::last_value(before + seq![flags[k]], flags, 0, None) is None,
{
    let args = before + seq![flags[k], value] + behind;
    let at = before.len() as int;
    assert forall|i: int| 0 <= i < at implies is_other_argument(#[trigger] args[i], flags) by {
        assert(args[i] == before[i]);
    }
    lemma_others_are_passed_over(args, flags, 0, at, None);
    assert(args[at] == flags[k] && args[at + 1] == value);
    assert(backend::flag_given(flags, args[at]));
    assert forall|i: int| at + 2 <= i < args.len() implies is_other_argument(
        #[trigger] args[i],
        flags,
    ) by {
        assert(args[i] == behind[i - at - 2]);
    }
    lemma_others_change_nothing(args, flags, at + 2, Some(value));
    let short = before + seq![flags[k]];
    assert forall|i: int| 0 <= i < at implies is_other_argument(#[trigger] short[i], flags) by {
        assert(short[i] == before[i]);
    }
    lemma_others_are_passed_over(short, flags, 0, at, None);
    assert(short[at] == flags[k]);
    assert(backend::flag_given(flags, short[at]));
}

/// Where a flag is given more than one value, the last one counts.
pub proof fn lemma_last_value_counts(
    before: Seq<Seq<char>>,
    flags: Seq<Seq<char>>,
    j: int,
    first: Seq<char>,
    between: Seq<Seq<char>>,
    k: int,
    last: Seq<char>,
)
    requires
        0 <= j < flags.len(),
        0 <= k < flags.len(),
        forall|i: int| 0 <= i < before.len() ==> is_other_argument(#[trigger] before[i], flags),
        forall|i: int| 0 <= i < between.len() ==> is_other_argument(#[trigger] between[i], flags),
    ensures
        backend::last_value(
            before + seq![flags[j], first] + between + seq![flags[k], last],
            flags,
            0,
            None,
        ) == Some(last),
{
    let args = before + seq![flags[j], first] + between + seq![flags[k], last];
    let at = before.len() as int;
    let next = at + 2 + between.len();
    assert forall|i: int| 0 <= i < at implies is_other_argument(#[trigger] args[i], flags) by {
        assert(args[i] == before[i]);
    }
    lemma_others_are_passed_over(args, flags, 0, at, None);
    assert(args[at] == flags[j] && args[at + 1] == first);
    assert(backend::flag_given(flags, args[at]));
    assert forall|i: int| at + 2 <= i < next implies is_other_argument(#[trigger] args[i], flags) by {
        assert(args[i] == between[i - at - 2]);
    }
    lemma_others_are_passed_over(args, flags, at + 2, next, Some(first));
    assert(args[next] == flags[k] && args[next + 1] == last);
    assert(backend::flag_given(flags, args[next]));
    assert(backend::last_value(args, flags, next + 2, Some(last)) == Some(last));
}

/// An argument that is a flag, an equals sign and a value gives the flag that
/// value, if no flag before it in the list is given one by it, and it is no flag
/// itself.
pub proof fn lemma_flag_is_given_value_behind_equals(
    before: Seq<Seq<char>>,
    flags: Seq<Seq<char>>,
    k: int,
    value: Seq<char>,
    behind: Seq<Seq<char>>,
)
    requires
        0 <= k < flags.len(),
        forall|i: int| 0 <= i < before.len() ==> is_other_argument(#[trigger] before[i], flags),
        forall|i: int| 0 <= i < behind.len() ==> is_other_argument(#[trigger] behind[i], flags),
        is_other_argument(flags[k] + seq!['='] + value, flags.take(k)),
        forall|j: int| 0 <= j < flags.len() ==> flags[k] + seq!['='] + value != #[trigger] flags[j],
    ensures
        backend::last_value(
            before + seq![flags[k] + seq!['='] + value] + behind,
            flags,
            0,
            None,
        ) == Some(value),
{
    let arg = flags[k] + seq!['='] + value;
    let args = before + seq![arg] + behind;
    let at = before.len() as int;
    assert forall|i: int| 0 <= i < at implies is_other_argument(#[trigger] args[i], flags) by {
        assert(args[i] == before[i]);
    }
    lemma_others_are_passed_over(args, flags, 0, at, None);
    assert(args[at] == arg);
    assert(!backend::flag_given(flags, arg));
    lemma_value_in(arg, flags, k, value);
    assert forall|i: int| at + 1 <= i < args.len() implies is_other_argument(
        #[trigger] args[i],
        flags,
    ) by {
        assert(args[i] == behind[i - at - 1]);
    }
    lemma_others_change_nothing(args, flags, at + 1, Some(value));
}

proof fn lemma_value_in(arg: Seq<char>, flags: Seq<Seq<char>>, k: int, value: Seq<char>)
    requires
        0 <= k < flags.len(),
        arg == flags[k] + seq!['='] + value,
        is_other_argument(arg, flags.take(k)),
    ensures
        backend::value_in(arg, flags) == Some(value),
    decreases k,
{
    reveal_strlit("=");
    let start = flags[0] + "="@;
    if k == 0 {
        assert(arg.subrange(0, start.len() as int) =~= start);
        assert(arg.skip(start.len() as int) =~= value);
    } else {
        let first = flags.take(k);
        let one = seq![flags[0]];
        assert(first[0] == flags[0]);
        assert forall|j: int| 0 <= j < one.len() implies arg != #[trigger] one[j] && !(arg.len()
            > one[j].len() && arg.take(one[j].len() as int) == one[j] && arg[one[j].len() as int]
            == '=') by {
            assert(one[j] == first[0]);
        }
        lemma_no_value(arg, one);
        assert(!text::occurs_at(arg, 0, start));
        let rest = flags.drop_first();
        assert(rest[k - 1] == flags[k]);
        assert forall|j: int| 0 <= j < rest.take(k - 1).len() implies arg != #[trigger] rest.take(
            k - 1,
        )[j] && !(arg.len() > rest.take(k - 1)[j].len() && arg.take(
            rest.take(k - 1)[j].len() as int,
        ) == rest.take(k - 1)[j] && arg[rest.take(k - 1)[j].len() as int] == '=') by {
            assert(rest.take(k - 1)[j] == first[j + 1]);
        }
        lemma_value_in(arg, rest, k - 1, value);
    }
}

// ---------------------------------------------------------------------------
// Files
// ---------------------------------------------------------------------------

/// The blob of a path is that of the first entry for it, if there is one.
pub proof fn lemma_blob_of(
    before: Seq<(Seq<char>, Seq<char>)>,
    path: Seq<char>,
    blob: Seq<char>,
    behind: Seq<(Seq<char>, Seq<char>)>,
)
    requires
        forall|i: int| 0 <= i < before.len() ==> (#[trigger] before[i]).0 != path,
    ensures
        backend::blob_of(before + seq![(path, blob)] + behind, path) == Some(blob),
        backend::blob_of(before, path) is None,
    decreases before.len(),
{
    let all = before + seq![(path, blob)] + behind;
    if before.len() == 0 {
        assert(all[0] == (path, blob));
    } else {
        let rest = before.drop_first();
        assert forall|i: int| 0 <= i < rest.len() implies (#[trigger] rest[i]).0 != path by {
            assert(rest[i] == before[i + 1]);
        }
        assert(all[0] == before[0]);
        assert(before[0].0 != path);
        assert(all.drop_first() =~= rest + seq![(path, blob)] + behind);
        lemma_blob_of(rest, path, blob, behind);
    }
}

/// The right side of a file of a Git diff is the blob that the diff names for it;
/// else, where the index was compared, what the index has; else the file itself.
pub proof fn lemma_git_file(fetcher: FileFetcher, path: Seq<char>)
    requires
        fetcher.backend is Git,
    ensures
        ({
            let blob = backend::blob_of(backend::pair_texts(fetcher.git_right_blobs@), path);
            let args = text::texts(fetcher.args@);
            let index = args.contains("--cached"@) || args.contains("--staged"@);
            &&& blob is Some ==> fetcher.source_of(path) == (FetchView::Run {
                program: "git"@,
                args: seq!["show"@, blob->0],
            })
            &&& blob is None && index ==> fetcher.source_of(path) == (FetchView::Run {
                program: "git"@,
                args: seq!["show"@, seq![':'] + path],
            })
            &&& blob is None && !index ==> fetcher.source_of(path) is WorkingTree
        }),
{
    reveal_strlit(":");
    assert(":"@ =~= seq![':']);
    let args = text::texts(fetcher.args@);
    if backend::flag_given(args, "--cached"@) {
        let i = choose|i: int| 0 <= i < args.len() && #[trigger] args[i] == "--cached"@;
        assert(args.contains("--cached"@));
    }
    if backend::flag_given(args, "--staged"@) {
        let i = choose|i: int| 0 <= i < args.len() && #[trigger] args[i] == "--staged"@;
        assert(args.contains("--staged"@));
    }
    if args.contains("--cached"@) {
        let i = choose|i: int| 0 <= i < args.len() && args[i] == "--cached"@;
        assert(args[i] == "--cached"@);
    }
    if args.contains("--staged"@) {
        let i = choose|i: int| 0 <= i < args.len() && args[i] == "--staged"@;
        assert(args[i] == "--staged"@);
    }
}

/// The right side of a file of a Mercurial diff is what the revision has that was
/// asked for, or else the file itself; that of any other diff is the file itself.
pub proof fn lemma_other_file(fetcher: FileFetcher, path: Seq<char>)
    ensures
        fetcher.backend is PlainDiff ==> fetcher.source_of(path) is WorkingDirectory,
        fetcher.backend is Hg ==> ({
            let revision = backend::last_value(
                text::texts(fetcher.args@),
                seq!["-r"@, "--rev"@],
                0,
                None,
            );
            &&& revision is None ==> fetcher.source_of(path) is WorkingTree
            &&& revision is Some ==> fetcher.source_of(path) == (FetchView::Run {
                program: "hg"@,
                args: seq!["cat"@, "-r"@, revision->0, path],
            })
        }),
{
}

/// A range of lines has as many lines as were asked for, or as there are from its
/// first line on. Line zero is line one.
pub proof fn lemma_line_count(content: Seq<char>, start_line: nat, line_count: nat)
    requires
        start_line >= 1,
    ensures
        ({
            let total = text::lines(content).len();
            backend::line_range(content, start_line, line_count).len() == if start_line > total {
                0
            } else if start_line + line_count > total {
                (total + 1 - start_line) as nat
            } else {
                line_count
            }
        }),
        backend::line_range(content, 0, line_count) == backend::line_range(content, 1, line_count),
        forall|i: int|
            0 <= i < backend::line_range(content, start_line, line_count).len()
                ==> #[trigger] backend::line_range(content, start_line, line_count)[i]
                == text::lines(content)[start_line - 1 + i],
{
}

} // verus!
