//! The diff commands: which one a directory calls for, how it is run, and where
//! the lines come from that it leaves out.

use crate::text;
use crate::text::char_list;
use crate::text::join_texts;
use crate::text::occurs;
use crate::text::same_text;
use crate::text::slice_text;
use vstd::prelude::*;

verus! {

broadcast use vstd::seq::group_seq_axioms;

/// A diff command.
#[derive(Clone, Copy, Debug, Eq, PartialEq, Structural)]
pub enum Backend {
    Git,
    Hg,
    PlainDiff,
}

// ---------------------------------------------------------------------------
// Detection
// ---------------------------------------------------------------------------

/// What a directory holds that tells a repository.
#[derive(Clone, Copy, Debug, Eq, PartialEq, Structural)]
pub struct RepositoryMarkers {
    pub git: bool,
    pub hg: bool,
}

/// The command that a directory calls for, and which of its ancestors is the
/// root of the repository, if it is in one. The directory itself is its first
/// ancestor.
#[derive(Clone, Copy, Debug, Eq, PartialEq, Structural)]
pub struct Detection {
    pub backend: Backend,
    pub root: Option<usize>,
}

/// Whether a directory is the root of a repository.
pub open spec fn is_root(markers: RepositoryMarkers) -> bool {
    markers.git || markers.hg
}

/// Whether `detection` is what the ancestors of a directory call for: the
/// nearest that is the root of a repository decides, and Git goes first.
pub open spec fn detected(ancestors: Seq<RepositoryMarkers>, detection: Detection) -> bool {
    match detection.root {
        None => detection.backend is PlainDiff && forall|i: int|
            0 <= i < ancestors.len() ==> !is_root(#[trigger] ancestors[i]),
        Some(root) => {
            &&& root < ancestors.len()
            &&& is_root(ancestors[root as int])
            &&& forall|i: int| 0 <= i < root ==> !is_root(#[trigger] ancestors[i])
            &&& detection.backend == if ancestors[root as int].git {
                Backend::Git
            } else {
                Backend::Hg
            }
        },
    }
}

/// The command that a directory calls for, given what it and the directories
/// above it hold, from the nearest to the farthest.
pub fn detect_details(ancestors: &[RepositoryMarkers]) -> (detection: Detection)
    ensures
        detected(ancestors@, detection),
{
    let mut index: usize = 0;
    while index < ancestors.len()
        invariant
            index <= ancestors@.len(),
            forall|i: int| 0 <= i < index ==> !is_root(#[trigger] ancestors@[i]),
        decreases ancestors@.len() - index,
    {
        let markers = ancestors[index];
        if markers.git {
            return Detection { backend: Backend::Git, root: Some(index) };
        }
        if markers.hg {
            return Detection { backend: Backend::Hg, root: Some(index) };
        }
        index += 1;
    }
    Detection { backend: Backend::PlainDiff, root: None }
}

/// The command that a directory calls for.
pub fn detect(ancestors: &[RepositoryMarkers]) -> (backend: Backend)
    ensures
        exists|detection: Detection| #[trigger]
            detected(ancestors@, detection) && backend == detection.backend,
{
    detect_details(ancestors).backend
}

/// There is only one command that a directory calls for, and only one root.
pub proof fn lemma_detection_is_unique(
    ancestors: Seq<RepositoryMarkers>,
    one: Detection,
    other: Detection,
)
    requires
        detected(ancestors, one),
        detected(ancestors, other),
    ensures
        one == other,
{
    match (one.root, other.root) {
        (Some(a), Some(b)) => {
            if a < b {
                assert(!is_root(ancestors[a as int]));
            } else if b < a {
                assert(!is_root(ancestors[b as int]));
            }
        },
        (Some(a), None) => {
            assert(!is_root(ancestors[a as int]));
        },
        (None, Some(b)) => {
            assert(!is_root(ancestors[b as int]));
        },
        (None, None) => {},
    }
}

// ---------------------------------------------------------------------------
// Commands
// ---------------------------------------------------------------------------

/// How a command is run: the program, the arguments that come before those of
/// the user, and what is set in its environment.
#[derive(Debug, Eq, PartialEq)]
pub struct CommandPlan {
    pub program: String,
    pub args: Vec<String>,
    pub env: Vec<(String, String)>,
}

/// The texts of pairs of strings.
pub open spec fn pair_texts(list: Seq<(String, String)>) -> Seq<(Seq<char>, Seq<char>)> {
    list.map_values(|pair: (String, String)| (pair.0@, pair.1@))
}

impl Backend {
    /// The name of the command.
    pub open spec fn name(self) -> Seq<char> {
        match self {
            Backend::Git => "git diff"@,
            Backend::Hg => "hg diff"@,
            Backend::PlainDiff => "diff"@,
        }
    }

    /// The program that is run.
    pub open spec fn program(self) -> Seq<char> {
        match self {
            Backend::Git => "git"@,
            Backend::Hg => "hg"@,
            Backend::PlainDiff => "diff"@,
        }
    }

    /// The arguments that come before those of the user: colors and pagers are
    /// switched off.
    pub open spec fn fixed_args(self) -> Seq<Seq<char>> {
        match self {
            Backend::Git => seq!["-c"@, "color.ui=false"@, "-c"@, "core.pager=cat"@, "diff"@],
            Backend::Hg => seq!["--config"@, "ui.color=off"@, "diff"@],
            Backend::PlainDiff => Seq::empty(),
        }
    }

    /// What is set in the environment.
    pub open spec fn environment(self) -> Seq<(Seq<char>, Seq<char>)> {
        match self {
            Backend::Git => seq![
                ("NO_COLOR"@, "1"@),
                ("CLICOLOR"@, "0"@),
                ("GIT_PAGER"@, "cat"@),
            ],
            Backend::Hg => seq![("NO_COLOR"@, "1"@), ("CLICOLOR"@, "0"@)],
            Backend::PlainDiff => Seq::empty(),
        }
    }

    /// The name of the command.
    pub fn describe(self) -> (name: &'static str)
        ensures
            name@ == self.name(),
    {
        match self {
            Backend::Git => "git diff",
            Backend::Hg => "hg diff",
            Backend::PlainDiff => "diff",
        }
    }

    /// How the command is run. The arguments of the user follow those given
    /// here as they are.
    pub fn command(self) -> (plan: CommandPlan)
        ensures
            plan.program@ == self.program(),
            text::texts(plan.args@) == self.fixed_args(),
            pair_texts(plan.env@) == self.environment(),
    {
        let mut args: Vec<String> = Vec::new();
        let mut env: Vec<(String, String)> = Vec::new();
        let program = match self {
            Backend::Git => {
                args.push("-c".to_owned());
                args.push("color.ui=false".to_owned());
                args.push("-c".to_owned());
                args.push("core.pager=cat".to_owned());
                args.push("diff".to_owned());
                env.push(("NO_COLOR".to_owned(), "1".to_owned()));
                env.push(("CLICOLOR".to_owned(), "0".to_owned()));
                env.push(("GIT_PAGER".to_owned(), "cat".to_owned()));
                "git".to_owned()
            },
            Backend::Hg => {
                args.push("--config".to_owned());
                args.push("ui.color=off".to_owned());
                args.push("diff".to_owned());
                env.push(("NO_COLOR".to_owned(), "1".to_owned()));
                env.push(("CLICOLOR".to_owned(), "0".to_owned()));
                "hg".to_owned()
            },
            Backend::PlainDiff => "diff".to_owned(),
        };
        assert(text::texts(args@) =~= self.fixed_args());
        assert(pair_texts(env@) =~= self.environment());
        CommandPlan { program, args, env }
    }

    /// The words of the command line: the program and its arguments, those of
    /// the user quoted.
    pub open spec fn preview_words(self, args: Seq<Seq<char>>) -> Seq<Seq<char>> {
        seq![self.program()] + self.fixed_args() + args.map_values(|arg: Seq<char>| quoted(arg))
    }

    /// The command line as a text.
    pub fn command_preview(self, args: &[String]) -> (preview: String)
        ensures
            preview@ == text::join(self.preview_words(text::texts(args@)), " "@),
    {
        let plan = self.command();
        let ghost words = self.preview_words(text::texts(args@));
        let mut parts: Vec<String> = Vec::new();
        parts.push(plan.program);
        assert(text::texts(parts@) =~= words.take(1));
        let mut index: usize = 0;
        while index < plan.args.len()
            invariant
                index <= plan.args@.len(),
                text::texts(plan.args@) == self.fixed_args(),
                words == self.preview_words(text::texts(args@)),
                text::texts(parts@) == words.take(1 + index),
            decreases plan.args@.len() - index,
        {
            let ghost before = text::texts(parts@);
            let part = plan.args[index].clone();
            assert(part@ == text::texts(plan.args@)[index as int]);
            assert(part@ == words[1 + index]);
            parts.push(part);
            assert(text::texts(parts@) =~= before.push(part@));
            index += 1;
            assert(text::texts(parts@) =~= words.take(1 + index));
        }
        let ghost fixed = 1 + self.fixed_args().len();
        let mut at: usize = 0;
        while at < args.len()
            invariant
                at <= args@.len(),
                fixed == 1 + self.fixed_args().len(),
                words == self.preview_words(text::texts(args@)),
                text::texts(parts@) == words.take(fixed + at),
            decreases args@.len() - at,
        {
            let ghost before = text::texts(parts@);
            let part = shell_quote_lossy(args[at].as_str());
            assert(part@ == quoted(text::texts(args@)[at as int]));
            assert(part@ == words[fixed + at]);
            parts.push(part);
            assert(text::texts(parts@) =~= before.push(part@));
            at += 1;
            assert(text::texts(parts@) =~= words.take(fixed + at));
        }
        assert(words.take(fixed + at) =~= words);
        join_texts(&parts, " ")
    }
}

// ---------------------------------------------------------------------------
// Quoting
// ---------------------------------------------------------------------------

/// Whether a shell takes `ch` as it is.
pub open spec fn is_safe(ch: char) -> bool {
    ||| '0' <= ch <= '9'
    ||| 'a' <= ch <= 'z'
    ||| 'A' <= ch <= 'Z'
    ||| ch == '/'
    ||| ch == '.'
    ||| ch == '_'
    ||| ch == '-'
    ||| ch == ':'
    ||| ch == '='
}

/// Whether a shell takes all of `value` as it is.
pub open spec fn all_safe(value: Seq<char>) -> bool {
    forall|i: int| 0 <= i < value.len() ==> is_safe(#[trigger] value[i])
}

/// `value` with each quote taken out of the quotes around it.
pub open spec fn escaped(value: Seq<char>) -> Seq<char>
    decreases value.len(),
{
    if value.len() == 0 {
        Seq::empty()
    } else if value[0] == '\'' {
        seq!['\'', '\\', '\'', '\''] + escaped(value.drop_first())
    } else {
        seq![value[0]] + escaped(value.drop_first())
    }
}

/// `value` as a word of a shell command.
pub open spec fn quoted(value: Seq<char>) -> Seq<char> {
    if value.len() > 0 && all_safe(value) {
        value
    } else {
        seq!['\''] + escaped(value) + seq!['\'']
    }
}

/// Whether a shell takes `ch` as it is.
fn safe_char(ch: char) -> (safe: bool)
    ensures
        safe == is_safe(ch),
{
    ('0' <= ch && ch <= '9') || ('a' <= ch && ch <= 'z') || ('A' <= ch && ch <= 'Z') || ch == '/'
        || ch == '.' || ch == '_' || ch == '-' || ch == ':' || ch == '='
}

/// `value` as a word of a shell command.
pub fn shell_quote_lossy(value: &str) -> (word: String)
    ensures
        word@ == quoted(value@),
{
    let chars = char_list(value);
    let mut safe = chars.len() > 0;
    let mut index: usize = 0;
    while index < chars.len() && safe
        invariant
            index <= chars@.len(),
            chars@ == value@,
            chars@.len() > 0 && safe ==> forall|i: int|
                0 <= i < index ==> is_safe(#[trigger] chars@[i]),
            !safe ==> chars@.len() == 0 || !all_safe(chars@),
            safe ==> chars@.len() > 0,
        decreases chars@.len() - index,
    {
        if !safe_char(chars[index]) {
            safe = false;
        }
        index += 1;
    }
    if safe {
        return value.to_owned();
    }
    let mut word = String::new();
    word.push('\'');
    let mut at: usize = 0;
    assert(chars@.skip(0) =~= value@);
    assert(word@ =~= seq!['\'']);
    while at < chars.len()
        invariant
            at <= chars@.len(),
            chars@ == value@,
            seq!['\''] + escaped(value@) == word@ + escaped(chars@.skip(at as int)),
        decreases chars@.len() - at,
    {
        let ghost rest = chars@.skip(at as int);
        let ghost before = word@;
        assert(rest.drop_first() =~= chars@.skip(at + 1));
        let ch = chars[at];
        if ch == '\'' {
            word.push('\'');
            word.push('\\');
            word.push('\'');
            word.push('\'');
        } else {
            word.push(ch);
        }
        at += 1;
        assert(before + escaped(rest) =~= word@ + escaped(chars@.skip(at as int)));
    }
    assert(chars@.skip(at as int) =~= Seq::<char>::empty());
    word.push('\'');
    assert(word@ =~= quoted(value@));
    word
}

/// What a shell reads from `word`, where `inside` says whether a quote is open:
/// quotes are taken off, and a backslash outside them stands for the character
/// that follows it.
pub open spec fn unquoted(word: Seq<char>, inside: bool) -> Seq<char>
    decreases word.len(),
{
    if word.len() == 0 {
        Seq::empty()
    } else if word[0] == '\'' {
        unquoted(word.drop_first(), !inside)
    } else if word[0] == '\\' && !inside && word.len() > 1 {
        seq![word[1]] + unquoted(word.skip(2), inside)
    } else {
        seq![word[0]] + unquoted(word.drop_first(), inside)
    }
}

proof fn lemma_unquote_char(ch: char, rest: Seq<char>, inside: bool)
    requires
        ch != '\'',
        inside || ch != '\\',
    ensures
        unquoted(seq![ch] + rest, inside) == seq![ch] + unquoted(rest, inside),
{
    assert((seq![ch] + rest)[0] == ch);
    assert((seq![ch] + rest).drop_first() =~= rest);
}

proof fn lemma_unquote_quote(rest: Seq<char>, inside: bool)
    ensures
        unquoted(seq!['\''] + rest, inside) == unquoted(rest, !inside),
{
    assert((seq!['\''] + rest)[0] == '\'');
    assert((seq!['\''] + rest).drop_first() =~= rest);
}

proof fn lemma_unquote_escaped(value: Seq<char>)
    ensures
        unquoted(escaped(value) + seq!['\''], true) == value,
    decreases value.len(),
{
    let end = seq!['\''];
    if value.len() == 0 {
        assert(escaped(value) + end =~= end + Seq::<char>::empty());
        lemma_unquote_quote(Seq::empty(), true);
        assert(unquoted(Seq::<char>::empty(), false) =~= value);
    } else {
        let rest = escaped(value.drop_first()) + end;
        lemma_unquote_escaped(value.drop_first());
        if value[0] == '\'' {
            let reopened = seq!['\''] + rest;
            let behind = seq!['\\', '\''] + reopened;
            assert(escaped(value) + end =~= seq!['\''] + behind);
            lemma_unquote_quote(behind, true);
            assert(behind[0] == '\\' && behind[1] == '\'');
            assert(behind.skip(2) =~= reopened);
            lemma_unquote_quote(rest, false);
            assert(seq!['\''] + value.drop_first() =~= value);
        } else {
            assert(escaped(value) + end =~= seq![value[0]] + rest);
            lemma_unquote_char(value[0], rest, true);
            assert(seq![value[0]] + value.drop_first() =~= value);
        }
    }
}

proof fn lemma_unquote_safe(value: Seq<char>)
    requires
        all_safe(value),
    ensures
        unquoted(value, false) == value,
    decreases value.len(),
{
    if value.len() > 0 {
        let rest = value.drop_first();
        assert forall|i: int| 0 <= i < rest.len() implies is_safe(#[trigger] rest[i]) by {
            assert(rest[i] == value[i + 1]);
        }
        lemma_unquote_safe(rest);
        assert(is_safe(value[0]));
        assert(seq![value[0]] + rest =~= value);
        lemma_unquote_char(value[0], rest, false);
    } else {
        assert(unquoted(value, false) =~= value);
    }
}

/// A quoted word stands for the value that was quoted: the command line that is
/// shown can be handed to a shell.
pub proof fn lemma_quoting_reads_back(value: Seq<char>)
    ensures
        unquoted(quoted(value), false) == value,
        quoted(value).len() > 0,
{
    if value.len() > 0 && all_safe(value) {
        lemma_unquote_safe(value);
    } else {
        let rest = escaped(value) + seq!['\''];
        assert(quoted(value) =~= seq!['\''] + rest);
        lemma_unquote_quote(rest, false);
        lemma_unquote_escaped(value);
    }
}

// ---------------------------------------------------------------------------
// Arguments
// ---------------------------------------------------------------------------

/// An argument as it was given, and the text of it.
#[derive(Debug, Eq, PartialEq)]
pub struct Argument<R> {
    pub text: String,
    pub raw: R,
}

/// The arguments that are not `flag`.
pub open spec fn without_flag<R>(args: Seq<Argument<R>>, flag: Seq<char>) -> Seq<Argument<R>>
    decreases args.len(),
{
    if args.len() == 0 {
        Seq::empty()
    } else {
        let before = without_flag(args.drop_last(), flag);
        if args.last().text@ == flag {
            before
        } else {
            before.push(args.last())
        }
    }
}

/// Whether `flag` is among the arguments.
pub open spec fn flag_given(args: Seq<Seq<char>>, flag: Seq<char>) -> bool {
    exists|i: int| 0 <= i < args.len() && #[trigger] args[i] == flag
}

/// The texts of arguments.
pub open spec fn argument_texts<R>(args: Seq<Argument<R>>) -> Seq<Seq<char>> {
    args.map_values(|arg: Argument<R>| arg.text@)
}

/// Takes each `flag` out of the arguments. Tells whether there was one.
pub fn take_flag<R>(args: &mut Vec<Argument<R>>, flag: &str) -> (taken: bool)
    ensures
        final(args)@ == without_flag(old(args)@, flag@),
        taken == flag_given(argument_texts(old(args)@), flag@),
{
    let ghost given = args@;
    let ghost texts = argument_texts(given);
    let mut taken = false;
    let mut index: usize = 0;
    let ghost mut seen: int = 0;
    assert(given.take(0) =~= Seq::<Argument<R>>::empty());
    assert(args@ =~= without_flag(given.take(0), flag@) + given.skip(0));
    while index < args.len()
        invariant
            0 <= seen <= given.len(),
            index <= args@.len(),
            given == old(args)@,
            texts == argument_texts(given),
            without_flag(given.take(seen), flag@).len() == index,
            args@ == without_flag(given.take(seen), flag@) + given.skip(seen),
            taken == flag_given(texts.take(seen), flag@),
        decreases given.len() - seen,
    {
        let ghost kept = without_flag(given.take(seen), flag@);
        assert(given.take(seen + 1).drop_last() =~= given.take(seen));
        assert(args@[index as int] == given[seen]);
        assert(texts[seen] == given[seen].text@);
        if same_text(args[index].text.as_str(), flag) {
            let ghost before = args@;
            args.remove(index);
            taken = true;
            assert(args@ =~= kept + given.skip(seen + 1));
            assert(texts.take(seen + 1)[seen] == flag@);
        } else {
            index += 1;
            assert(args@ =~= kept.push(given[seen]) + given.skip(seen + 1));
            proof {
                if flag_given(texts.take(seen), flag@) {
                    let i = choose|i: int| 0 <= i < seen && #[trigger] texts.take(seen)[i] == flag@;
                    assert(texts.take(seen + 1)[i] == flag@);
                }
                if flag_given(texts.take(seen + 1), flag@) {
                    let i = choose|i: int|
                        0 <= i < seen + 1 && #[trigger] texts.take(seen + 1)[i] == flag@;
                    assert(texts.take(seen)[i] == flag@);
                }
            }
        }
        proof {
            seen = seen + 1;
        }
    }
    assert(seen == given.len());
    assert(given.take(seen) =~= given);
    assert(texts.take(seen) =~= texts);
    assert(args@ =~= without_flag(given, flag@));
    taken
}

/// After a flag was taken out it is not there any more, and all other arguments
/// are, in their order.
pub proof fn lemma_flag_is_taken<R>(args: Seq<Argument<R>>, flag: Seq<char>)
    ensures
        !flag_given(argument_texts(without_flag(args, flag)), flag),
        without_flag(without_flag(args, flag), flag) == without_flag(args, flag),
        !flag_given(argument_texts(args), flag) ==> without_flag(args, flag) == args,
    decreases args.len(),
{
    if args.len() == 0 {
        assert(without_flag(args, flag) =~= args);
    } else {
        let fewer = args.drop_last();
        lemma_flag_is_taken(fewer, flag);
        let before = without_flag(fewer, flag);
        let all = without_flag(args, flag);
        let texts = argument_texts(args);
        if args.last().text@ == flag {
            assert(texts[args.len() - 1] == flag);
        } else {
            assert(all.drop_last() =~= before);
            if flag_given(argument_texts(all), flag) {
                let i = choose|i: int|
                    0 <= i < all.len() && #[trigger] argument_texts(all)[i] == flag;
                if i < before.len() {
                    assert(argument_texts(before)[i] == flag);
                }
            }
            if !flag_given(texts, flag) {
                if flag_given(argument_texts(fewer), flag) {
                    let i = choose|i: int|
                        0 <= i < fewer.len() && #[trigger] argument_texts(fewer)[i] == flag;
                    assert(texts[i] == flag);
                }
                assert(all =~= args);
            }
        }
    }
}

/// What the user asks of the viewer itself.
#[derive(Clone, Copy, Debug, Eq, PartialEq, Structural)]
pub struct Options {
    /// A report in place of a diff.
    pub rage: bool,
    /// The pager even where the diff fits the screen.
    pub force_pager: bool,
}

/// Takes the options of the viewer out of the arguments. The rest is for the
/// diff command. Where the pager is asked for by its short flag, the long one
/// is left to the diff command.
pub fn take_options<R>(args: &mut Vec<Argument<R>>) -> (options: Options)
    ensures
        ({
            let rest = without_flag(without_flag(old(args)@, "--rage"@), "-P"@);
            let short = flag_given(
                argument_texts(without_flag(old(args)@, "--rage"@)),
                "-P"@,
            );
            &&& options.rage == flag_given(argument_texts(old(args)@), "--rage"@)
            &&& options.force_pager == (short || flag_given(argument_texts(rest), "--pager"@))
            &&& final(args)@ == if short {
                rest
            } else {
                without_flag(rest, "--pager"@)
            }
        }),
{
    let rage = take_flag(args, "--rage");
    let force_pager = take_flag(args, "-P") || take_flag(args, "--pager");
    Options { rage, force_pager }
}

/// Whether `flag` is among the arguments.
pub fn has_flag(args: &[String], flag: &str) -> (given: bool)
    ensures
        given == flag_given(text::texts(args@), flag@),
{
    let mut index: usize = 0;
    while index < args.len()
        invariant
            index <= args@.len(),
            forall|i: int| 0 <= i < index ==> #[trigger] text::texts(args@)[i] != flag@,
        decreases args@.len() - index,
    {
        assert(text::texts(args@)[index as int] == args@[index as int]@);
        if same_text(args[index].as_str(), flag) {
            return true;
        }
        index += 1;
    }
    false
}

/// The value that `arg` gives the first of `flags` that it sets: what follows
/// the flag and an equals sign.
pub open spec fn value_in(arg: Seq<char>, flags: Seq<Seq<char>>) -> Option<Seq<char>>
    decreases flags.len(),
{
    if flags.len() == 0 {
        None
    } else {
        let start = flags[0] + "="@;
        if text::occurs_at(arg, 0, start) {
            Some(arg.skip(start.len() as int))
        } else {
            value_in(arg, flags.drop_first())
        }
    }
}

/// The value that the arguments from `index` on give one of `flags`, where
/// `found` is the value so far: the last that they give. A flag without its
/// value at the very end takes back all that came before.
pub open spec fn last_value(
    args: Seq<Seq<char>>,
    flags: Seq<Seq<char>>,
    index: int,
    found: Option<Seq<char>>,
) -> Option<Seq<char>>
    decreases args.len() - index,
{
    if index >= args.len() {
        found
    } else if flag_given(flags, args[index]) {
        if index + 1 < args.len() {
            last_value(args, flags, index + 2, Some(args[index + 1]))
        } else {
            None
        }
    } else {
        last_value(
            args,
            flags,
            index + 1,
            match value_in(args[index], flags) {
                Some(value) => Some(value),
                None => found,
            },
        )
    }
}

/// The value that `arg` gives the first of `flags` that it sets.
fn inline_value(arg: &str, flags: &[String]) -> (value: Option<String>)
    ensures
        match value {
            Some(value) => value_in(arg@, text::texts(flags@)) == Some(value@),
            None => value_in(arg@, text::texts(flags@)) is None,
        },
{
    let chars = char_list(arg);
    let ghost list = text::texts(flags@);
    let mut index: usize = 0;
    assert(list.skip(0) =~= list);
    while index < flags.len()
        invariant
            index <= flags@.len(),
            chars@ == arg@,
            list == text::texts(flags@),
            value_in(arg@, list) == value_in(arg@, list.skip(index as int)),
        decreases flags@.len() - index,
    {
        assert(list.skip(index as int).drop_first() =~= list.skip(index + 1));
        assert(list[index as int] == flags@[index as int]@);
        let mut start = flags[index].clone();
        start.push_str("=");
        let prefix = char_list(start.as_str());
        if occurs(&chars, 0, &prefix) {
            let value = slice_text(&chars, prefix.len(), chars.len());
            assert(value@ =~= arg@.skip(prefix@.len() as int));
            return Some(value);
        }
        index += 1;
    }
    None
}

/// The last value that the arguments give one of `flags`.
pub fn last_flag_value(args: &[String], flags: &[String]) -> (value: Option<String>)
    ensures
        match value {
            Some(value) => last_value(text::texts(args@), text::texts(flags@), 0, None) == Some(
                value@,
            ),
            None => last_value(text::texts(args@), text::texts(flags@), 0, None) is None,
        },
{
    let ghost list = text::texts(args@);
    let ghost names = text::texts(flags@);
    let mut result: Option<String> = None;
    let mut index: usize = 0;
    while index < args.len()
        invariant
            index <= args@.len(),
            list == text::texts(args@),
            names == text::texts(flags@),
            last_value(list, names, 0, None) == last_value(
                list,
                names,
                index as int,
                match result {
                    Some(value) => Some(value@),
                    None => None,
                },
            ),
        decreases args@.len() - index,
    {
        assert(list[index as int] == args@[index as int]@);
        if has_flag(flags, args[index].as_str()) {
            if args.len() - index < 2 {
                return None;
            }
            assert(list[index + 1] == args@[index + 1]@);
            result = Some(args[index + 1].clone());
            index += 2;
        } else {
            match inline_value(args[index].as_str(), flags) {
                Some(value) => {
                    result = Some(value);
                },
                None => {},
            }
            index += 1;
        }
    }
    result
}

// ---------------------------------------------------------------------------
// Fetching files
// ---------------------------------------------------------------------------

/// Where the right side of a file comes from.
#[derive(Debug, Eq, PartialEq)]
pub enum FetchPlan {
    /// What a command prints, run in the root of the repository.
    Run { program: String, args: Vec<String> },
    /// The file below the root of the repository, or below the working
    /// directory where there is none.
    WorkingTree,
    /// The file below the working directory.
    WorkingDirectory,
}

/// What a [`FetchPlan`] says.
pub enum FetchView {
    Run { program: Seq<char>, args: Seq<Seq<char>> },
    WorkingTree,
    WorkingDirectory,
}

impl View for FetchPlan {
    type V = FetchView;

    open spec fn view(&self) -> FetchView {
        match self {
            FetchPlan::Run { program, args } => FetchView::Run {
                program: program@,
                args: text::texts(args@),
            },
            FetchPlan::WorkingTree => FetchView::WorkingTree,
            FetchPlan::WorkingDirectory => FetchView::WorkingDirectory,
        }
    }
}

/// Finds out where the right side of a file comes from.
#[derive(Clone, Debug, Eq, PartialEq)]
pub struct FileFetcher {
    pub backend: Backend,
    /// The arguments of the user.
    pub args: Vec<String>,
    /// The blobs that a Git diff names for the right side, by path.
    pub git_right_blobs: Vec<(String, String)>,
}

/// The blob of the first entry for `path`.
pub open spec fn blob_of(blobs: Seq<(Seq<char>, Seq<char>)>, path: Seq<char>) -> Option<Seq<char>>
    decreases blobs.len(),
{
    if blobs.len() == 0 {
        None
    } else if blobs[0].0 == path {
        Some(blobs[0].1)
    } else {
        blob_of(blobs.drop_first(), path)
    }
}

impl FileFetcher {
    /// Where the right side of the file at `path` comes from. Git has it as a
    /// blob if the diff names one, and in its index if that is what was
    /// compared; Mercurial has it in a revision if one was asked for. Else it
    /// is the file on disk.
    pub open spec fn source_of(self, path: Seq<char>) -> FetchView {
        let args = text::texts(self.args@);
        match self.backend {
            Backend::Git => match blob_of(pair_texts(self.git_right_blobs@), path) {
                Some(blob) => FetchView::Run { program: "git"@, args: seq!["show"@, blob] },
                None => if flag_given(args, "--cached"@) || flag_given(args, "--staged"@) {
                    FetchView::Run { program: "git"@, args: seq!["show"@, ":"@ + path] }
                } else {
                    FetchView::WorkingTree
                },
            },
            Backend::Hg => match last_value(args, seq!["-r"@, "--rev"@], 0, None) {
                Some(revision) => FetchView::Run {
                    program: "hg"@,
                    args: seq!["cat"@, "-r"@, revision, path],
                },
                None => FetchView::WorkingTree,
            },
            Backend::PlainDiff => FetchView::WorkingDirectory,
        }
    }

    /// A fetcher for what a diff command compared.
    pub fn new(
        backend: Backend,
        args: Vec<String>,
        git_right_blobs: Vec<(String, String)>,
    ) -> (fetcher: FileFetcher)
        ensures
            fetcher.backend == backend,
            fetcher.args@ == args@,
            fetcher.git_right_blobs@ == git_right_blobs@,
    {
        FileFetcher { backend, args, git_right_blobs }
    }

    /// Where the right side of the file at `path` comes from.
    pub fn fetch_right_file(&self, path: &str) -> (plan: FetchPlan)
        ensures
            plan@ == self.source_of(path@),
    {
        match self.backend {
            Backend::Git => self.fetch_git_right_file(path),
            Backend::Hg => self.fetch_hg_right_file(path),
            Backend::PlainDiff => FetchPlan::WorkingDirectory,
        }
    }

    /// The blob that the diff names for `path`.
    fn right_blob(&self, path: &str) -> (blob: Option<String>)
        ensures
            match blob {
                Some(blob) => blob_of(pair_texts(self.git_right_blobs@), path@) == Some(blob@),
                None => blob_of(pair_texts(self.git_right_blobs@), path@) is None,
            },
    {
        let ghost blobs = pair_texts(self.git_right_blobs@);
        let mut index: usize = 0;
        assert(blobs.skip(0) =~= blobs);
        while index < self.git_right_blobs.len()
            invariant
                index <= self.git_right_blobs@.len(),
                blobs == pair_texts(self.git_right_blobs@),
                blob_of(blobs, path@) == blob_of(blobs.skip(index as int), path@),
            decreases self.git_right_blobs@.len() - index,
        {
            assert(blobs.skip(index as int).drop_first() =~= blobs.skip(index + 1));
            assert(blobs[index as int].0 == self.git_right_blobs@[index as int].0@);
            if same_text(self.git_right_blobs[index].0.as_str(), path) {
                return Some(self.git_right_blobs[index].1.clone());
            }
            index += 1;
        }
        None
    }

    fn fetch_git_right_file(&self, path: &str) -> (plan: FetchPlan)
        requires
            self.backend is Git,
        ensures
            plan@ == self.source_of(path@),
    {
        let mut args: Vec<String> = Vec::new();
        args.push("show".to_owned());
        match self.right_blob(path) {
            Some(blob) => {
                args.push(blob);
                assert(text::texts(args@) =~= seq!["show"@, blob@]);
                FetchPlan::Run { program: "git".to_owned(), args }
            },
            None => {
                if has_flag(self.args.as_slice(), "--cached") || has_flag(
                    self.args.as_slice(),
                    "--staged",
                ) {
                    let mut name = ":".to_owned();
                    name.push_str(path);
                    args.push(name);
                    assert(text::texts(args@) =~= seq!["show"@, ":"@ + path@]);
                    FetchPlan::Run { program: "git".to_owned(), args }
                } else {
                    FetchPlan::WorkingTree
                }
            },
        }
    }

    fn fetch_hg_right_file(&self, path: &str) -> (plan: FetchPlan)
        requires
            self.backend is Hg,
        ensures
            plan@ == self.source_of(path@),
    {
        let mut flags: Vec<String> = Vec::new();
        flags.push("-r".to_owned());
        flags.push("--rev".to_owned());
        assert(text::texts(flags@) =~= seq!["-r"@, "--rev"@]);
        match last_flag_value(self.args.as_slice(), flags.as_slice()) {
            Some(revision) => {
                let mut args: Vec<String> = Vec::new();
                args.push("cat".to_owned());
                args.push("-r".to_owned());
                args.push(revision);
                args.push(path.to_owned());
                assert(text::texts(args@) =~= seq!["cat"@, "-r"@, revision@, path@]);
                FetchPlan::Run { program: "hg".to_owned(), args }
            },
            None => FetchPlan::WorkingTree,
        }
    }
}

/// The lines of `content` from line `start_line` on, as many as `line_count`
/// and as there are. Line numbers start at one.
pub open spec fn line_range(content: Seq<char>, start_line: nat, line_count: nat) -> Seq<Seq<char>> {
    let list = text::lines(content);
    let skipped = if start_line == 0 {
        0int
    } else {
        start_line - 1
    };
    if skipped >= list.len() {
        Seq::empty()
    } else if skipped + line_count >= list.len() {
        list.skip(skipped)
    } else {
        list.subrange(skipped, skipped + line_count)
    }
}

/// The lines of `content` from line `start_line` on.
pub fn slice_lines(content: &str, start_line: usize, line_count: usize) -> (lines: Vec<String>)
    ensures
        text::texts(lines@) == line_range(content@, start_line as nat, line_count as nat),
        lines@.len() <= line_count,
{
    let all = text::split_lines(content);
    let ghost list = text::texts(all@);
    let ghost kept = line_range(content@, start_line as nat, line_count as nat);
    let mut lines: Vec<String> = Vec::new();
    let mut index: usize = start_line.saturating_sub(1);
    let ghost first = index as int;
    assert(text::texts(lines@) =~= kept.take(0));
    while index < all.len() && lines.len() < line_count
        invariant
            first <= index,
            index - first == lines@.len(),
            lines@.len() <= line_count,
            first < list.len() ==> index <= list.len(),
            list == text::texts(all@),
            list == text::lines(content@),
            kept == line_range(content@, start_line as nat, line_count as nat),
            first == if start_line == 0 {
                0int
            } else {
                start_line - 1
            },
            lines@.len() <= kept.len(),
            text::texts(lines@) == kept.take(lines@.len() as int),
        decreases all@.len() - index,
    {
        let ghost before = text::texts(lines@);
        let line = all[index].clone();
        assert(line@ == list[index as int]);
        assert(kept[index - first] == line@);
        lines.push(line);
        assert(text::texts(lines@) =~= before.push(line@));
        index += 1;
        assert(text::texts(lines@) =~= kept.take(lines@.len() as int));
    }
    assert(lines@.len() == kept.len());
    assert(kept.take(lines@.len() as int) =~= kept);
    lines
}

/// Each line of a range is the line with its number, counted from one, and the
/// range has as many as were asked for wherever the content goes on so far.
pub proof fn lemma_line_range(content: Seq<char>, start_line: nat, line_count: nat, i: int)
    requires
        1 <= start_line,
        0 <= i < line_range(content, start_line, line_count).len(),
    ensures
        line_range(content, start_line, line_count)[i] == text::lines(content)[start_line + i - 1],
        start_line + line_count - 1 <= text::lines(content).len() ==> line_range(
            content,
            start_line,
            line_count,
        ).len() == line_count,
{
}

} // verus!
