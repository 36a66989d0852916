//! The command line, as the `clap` crate reads it.

use crate::strings::{
    all_digits, chars_of, copy, copy_all, digits_value, is_digit, is_usize_text, parse_usize,
    string_of, texts, unsigned_part,
};
use crate::table::{entry, keys, lemma_place_from, names, place_of};
use clap::builder::PossibleValue;
use clap::{Arg, ArgAction};
use vstd::prelude::*;

verus! {

/// How an option takes its values.
#[derive(Debug, Clone, Copy, PartialEq, Eq, Structural)]
pub enum OptionAction {
    /// One value; the last occurrence counts.
    Single,
    /// A value with each occurrence.
    Many,
    /// No value: the option is there or not.
    Flag,
}

/// A word that an option takes for a value, and what the help says of it.
#[derive(Debug, Clone, Copy)]
pub struct CliWord {
    pub text: &'static str,
    pub help: &'static str,
}

/// View of a [`CliWord`].
pub ghost struct WordView {
    pub text: Seq<char>,
    pub help: Seq<char>,
}

impl CliWord {
    pub open spec fn view(&self) -> WordView {
        WordView { text: self.text@, help: self.help@ }
    }
}

/// What an option takes for a value.
#[derive(Debug, Clone, Copy)]
pub enum Accepted {
    AnyText,
    /// One of two words.
    Either(CliWord, CliWord),
    /// A number that is not negative.
    Number,
}

/// View of [`Accepted`].
pub ghost enum AcceptedView {
    AnyText,
    Either(WordView, WordView),
    Number,
}

impl Accepted {
    pub open spec fn view(&self) -> AcceptedView {
        match self {
            Accepted::AnyText => AcceptedView::AnyText,
            Accepted::Either(a, b) => AcceptedView::Either(a@, b@),
            Accepted::Number => AcceptedView::Number,
        }
    }
}

/// The text is taken for a value.
pub open spec fn is_accepted(accepted: AcceptedView, text: Seq<char>) -> bool {
    match accepted {
        AcceptedView::AnyText => true,
        AcceptedView::Either(a, b) => text == a.text || text == b.text,
        AcceptedView::Number => is_usize_text(text),
    }
}

/// An option of the command line. One without a long name is positional.
#[derive(Debug, Clone, Copy)]
pub struct CliOption {
    pub name: &'static str,
    pub long: Option<&'static str>,
    pub short: Option<char>,
    pub action: OptionAction,
    pub default: Option<&'static str>,
    pub accepted: Accepted,
    /// What stands for the value in messages.
    pub value_name: Option<&'static str>,
    pub help: &'static str,
    /// The help of a page that has room for more.
    pub long_help: Option<&'static str>,
}

/// View of a [`CliOption`].
pub ghost struct OptionView {
    pub name: Seq<char>,
    pub long: Option<Seq<char>>,
    pub short: Option<char>,
    pub action: OptionAction,
    pub default: Option<Seq<char>>,
    pub accepted: AcceptedView,
    pub value_name: Option<Seq<char>>,
    pub help: Seq<char>,
    pub long_help: Option<Seq<char>>,
}

/// The text of an optional literal.
pub open spec fn literal_text(s: Option<&'static str>) -> Option<Seq<char>> {
    match s {
        Some(t) => Some(t@),
        None => None,
    }
}

impl CliOption {
    pub open spec fn view(&self) -> OptionView {
        OptionView {
            name: self.name@,
            long: literal_text(self.long),
            short: self.short,
            action: self.action,
            default: literal_text(self.default),
            accepted: self.accepted@,
            value_name: literal_text(self.value_name),
            help: self.help@,
            long_help: literal_text(self.long_help),
        }
    }
}

/// An option that is given without its name.
pub open spec fn is_positional(option: OptionView) -> bool {
    option.long is None && option.short is None
}

/// The names of the option are given without their hyphens.
pub open spec fn is_bare(option: OptionView) -> bool {
    &&& option.short != Some('-')
    &&& option.long matches Some(long) ==> long.len() > 0 && long[0] != '-'
}

/// The options are told apart, leave `--help` and `--version` alone, and only the last one is
/// positional.
pub open spec fn are_sound(options: Seq<OptionView>) -> bool {
    &&& forall|i: int, j: int|
        #![trigger options[i], options[j]]
        0 <= i < j < options.len() ==> {
            &&& options[i].name != options[j].name
            &&& options[i].long is Some ==> options[i].long != options[j].long
            &&& options[i].short is Some ==> options[i].short != options[j].short
            &&& !is_positional(options[i])
        }
    &&& forall|i: int|
        0 <= i < options.len() ==> {
            &&& (#[trigger] options[i]).name != "help"@ && options[i].name != "version"@
            &&& options[i].long != Some("help"@) && options[i].long != Some("version"@)
            &&& options[i].short != Some('h') && options[i].short != Some('V')
            &&& options[i].action is Flag ==> options[i].default is None && !is_positional(
                options[i],
            ) && options[i].accepted is AnyText
            &&& options[i].default matches Some(text) ==> is_accepted(options[i].accepted, text)
            &&& is_bare(options[i])
        }
}

/// The name, version and description of a command.
pub ghost struct CommandWords {
    pub name: Seq<char>,
    pub version: Seq<char>,
    pub about: Seq<char>,
}

/// What a command line gave: the values of each option that takes some, and the flags that are
/// set.
pub ghost struct MatchedView {
    pub values: Map<Seq<char>, Seq<Seq<char>>>,
    pub flags: Set<Seq<char>>,
}

/// A command of `clap`.
#[verifier::external_type_specification]
#[verifier::external_body]
pub struct ExCommand(clap::Command);

/// The matches of `clap`.
#[verifier::external_type_specification]
#[verifier::external_body]
pub struct ExArgMatches(clap::ArgMatches);

/// The options that a command holds.
pub uninterp spec fn options_of(command: clap::Command) -> Seq<OptionView>;

/// The name, version and description that a command holds.
pub uninterp spec fn words_of(command: clap::Command) -> CommandWords;

/// The values and flags that the matches hold.
pub uninterp spec fn matched(m: clap::ArgMatches) -> MatchedView;

/// What `clap` makes of a command line that starts with the plain name of a program: the matches, or
/// how the command ends.
pub uninterp spec fn read_line(
    words: CommandWords,
    options: Seq<OptionView>,
    line: Seq<Seq<char>>,
) -> Result<MatchedView, EndView>;

/// The help text that `clap` writes for a command.
pub uninterp spec fn help_page(words: CommandWords, options: Seq<OptionView>) -> Seq<char>;

/// A command line that ends the command: what is to be shown, where, and the exit code.
#[derive(Debug)]
pub struct LineEnd {
    pub message: String,
    pub to_stderr: bool,
    pub exit_code: i32,
}

/// View of a [`LineEnd`].
pub ghost struct EndView {
    pub message: Seq<char>,
    pub to_stderr: bool,
    pub exit_code: i32,
}

impl LineEnd {
    pub open spec fn view(&self) -> EndView {
        EndView {
            message: self.message@,
            to_stderr: self.to_stderr,
            exit_code: self.exit_code,
        }
    }
}

/// The word is a file's name on every platform: there is no separator in it.
pub open spec fn is_plain_word(word: Seq<char>) -> bool {
    !word.contains('/') && !word.contains('\\') && !word.contains(':')
}

/// The line starts with a plain word, where it starts with any.
pub open spec fn has_plain_name(line: Seq<Seq<char>>) -> bool {
    line.len() > 0 ==> is_plain_word(line[0])
}

/// The outcomes are the same up to the texts of the messages.
pub open spec fn agree(a: Result<MatchedView, EndView>, b: Result<MatchedView, EndView>) -> bool {
    match (a, b) {
        (Ok(m), Ok(n)) => m == n,
        (Err(x), Err(y)) => x.to_stderr == y.to_stderr && x.exit_code == y.exit_code,
        _ => false,
    }
}

/// The outcome of reading a line.
pub open spec fn outcome(r: Result<clap::ArgMatches, LineEnd>) -> Result<MatchedView, EndView> {
    match r {
        Ok(m) => Ok(matched(m)),
        Err(end) => Err(end@),
    }
}

/// The values that an option has where it is not given.
pub open spec fn default_values(option: OptionView) -> Seq<Seq<char>> {
    match option.default {
        Some(text) => seq![text],
        None => seq![],
    }
}

/// Each option has its default, and no flag is set.
pub open spec fn only_defaults(options: Seq<OptionView>, m: MatchedView) -> bool {
    forall|i: int|
        0 <= i < options.len() ==> if (#[trigger] options[i]).action is Flag {
            !m.flags.contains(options[i].name)
        } else {
            values_in(m, options[i].name) == default_values(options[i])
        }
}

/// The values of the options are such as they take.
pub open spec fn all_accepted(options: Seq<OptionView>, m: MatchedView) -> bool {
    forall|i: int, k: int|
        #![trigger options[i], values_in(m, options[i].name)[k]]
        0 <= i < options.len() && !(options[i].action is Flag) && 0 <= k < values_in(
            m,
            options[i].name,
        ).len() ==> is_accepted(options[i].accepted, values_in(m, options[i].name)[k])
}

/// The first place at which no digit stands, or the length.
pub open spec fn digits_end(s: Seq<char>, i: int) -> int
    decreases s.len() - i,
{
    if i < 0 || i >= s.len() {
        s.len() as int
    } else if !is_digit(s[i]) {
        i
    } else {
        digits_end(s, i + 1)
    }
}

/// Why a text is no number.
pub open spec fn number_failure(s: Seq<char>) -> Seq<char> {
    let part = unsigned_part(s);
    if s.len() == 0 {
        "cannot parse integer from empty string"@
    } else if digits_value(part.take(digits_end(part, 0))) > usize::MAX {
        "number too large to fit in target type"@
    } else {
        "invalid digit found in string"@
    }
}

/// The text, if it is that of a number, or why it is none.
pub fn number_text(s: &str) -> (r: Result<String, String>)
    ensures
        match r {
            Ok(text) => is_usize_text(s@) && text@ == s@,
            Err(message) => !is_usize_text(s@) && message@ == number_failure(s@),
        },
{
    if parse_usize(s).is_some() {
        return Ok(copy(s));
    }
    let chars = chars_of(s);
    let n = chars.len();
    if n == 0 {
        return Err(copy("cannot parse integer from empty string"));
    }
    let start: usize = if chars[0] == '+' {
        1
    } else {
        0
    };
    let ghost part = unsigned_part(s@);
    assert(part =~= s@.skip(start as int));
    let mut end: usize = start;
    while end < n && '0' <= chars[end] && chars[end] <= '9'
        invariant
            n == chars@.len(),
            chars@ == s@,
            start <= end <= n,
            part == s@.skip(start as int),
            digits_end(part, 0) == digits_end(part, end - start),
            forall|j: int| 0 <= j < end - start ==> is_digit(#[trigger] part[j]),
        decreases n - end,
    {
        assert(part[end - start] == chars@[end as int]);
        end = end + 1;
    }
    if end < n {
        assert(part[end - start] == chars@[end as int]);
    }
    let digits = string_of(chars.as_slice(), start, end);
    proof {
        assert(digits@ =~= part.take(digits_end(part, 0)));
        assert(all_digits(digits@)) by {
            assert forall|j: int| 0 <= j < digits@.len() implies is_digit(
                #[trigger] digits@[j],
            ) by {
                assert(digits@[j] == part[j]);
            }
        }
        if digits@.len() > 0 {
            assert(is_digit(digits@[0]));
            assert(unsigned_part(digits@) == digits@);
        } else {
            assert(digits_value(digits@) == 0);
        }
    }
    if end > start && parse_usize(digits.as_str()).is_none() {
        Err(copy("number too large to fit in target type"))
    } else {
        Err(copy("invalid digit found in string"))
    }
}

/// `clap::Command::new`, `version` and `about`: a command with these words and without options.
#[verifier::external_body]
fn new_command(name: &'static str, version: &'static str, about: &'static str) -> (r: clap::Command)
    ensures
        options_of(r) == Seq::<OptionView>::empty(),
        words_of(r) == (CommandWords { name: name@, version: version@, about: about@ }),
{
    clap::Command::new(name).version(version).about(about)
}

/// `clap::Command::arg` with a `clap::Arg` of the given names, action, default, value parser, whose
/// words are each a `clap::builder::PossibleValue`, and help: the command has one option more.
#[verifier::external_body]
fn with_option(command: clap::Command, option: &CliOption) -> (r: clap::Command)
    requires
        is_bare(option@),
    ensures
        options_of(r) == options_of(command).push(option@),
        words_of(r) == words_of(command),
{
    let arg = Arg::new(option.name).long(option.long).short(option.short).help(option.help);
    let arg = arg.default_value(option.default).value_name(option.value_name);
    let arg = arg.long_help(option.long_help).action(match option.action {
        OptionAction::Single => ArgAction::Set,
        OptionAction::Many => ArgAction::Append,
        OptionAction::Flag => ArgAction::SetTrue,
    });
    command.arg(match option.accepted {
        Accepted::AnyText => arg,
        Accepted::Either(a, b) => arg.value_parser([
            PossibleValue::new(a.text).help(a.help),
            PossibleValue::new(b.text).help(b.help),
        ]),
        Accepted::Number => arg.value_parser(number_text),
    })
}

/// `clap::Command::try_get_matches_from`: reads a command line, whose first element is the name of
/// the program. The outcome depends on the command and the line alone, where that name is a plain
/// word. From any other the file's name is taken, as the platform sees it, and stands in messages:
/// the outcome is that of the line that starts with the command's own name, up to those messages.
/// The values are such as their options take. A line without arguments gives each option its
/// default.
#[verifier::external_body]
fn read(command: clap::Command, line: &[String]) -> (r: Result<clap::ArgMatches, LineEnd>)
    requires
        are_sound(options_of(command)),
    ensures
        has_plain_name(texts(line@)) ==> outcome(r) == read_line(
            words_of(command),
            options_of(command),
            texts(line@),
        ),
        line@.len() > 0 && is_plain_word(words_of(command).name) ==> agree(
            outcome(r),
            read_line(
                words_of(command),
                options_of(command),
                texts(line@).update(0, words_of(command).name),
            ),
        ),
        r is Ok ==> all_accepted(options_of(command), matched(r->Ok_0)),
        line@.len() == 1 ==> r is Ok && only_defaults(options_of(command), matched(r->Ok_0)),
{
    command.try_get_matches_from(line).map_err(|error| LineEnd {
        message: error.to_string(),
        to_stderr: error.use_stderr(),
        exit_code: error.exit_code(),
    })
}

/// `clap::ArgMatches::try_get_many`: the values of an option, in order; none where the option was
/// not given and has no default.
#[verifier::external_body]
fn values_of(m: &clap::ArgMatches, name: &str) -> (r: Vec<String>)
    ensures
        texts(r@) == values_in(matched(*m), name@),
{
    match m.try_get_many::<String>(name) {
        Ok(Some(values)) => values.cloned().collect(),
        Ok(None) => Vec::new(),
        Err(_) => Vec::new(),
    }
}

/// `clap::ArgMatches::try_get_one` on an option that is a flag: whether it is set.
#[verifier::external_body]
fn flag_of(m: &clap::ArgMatches, name: &str) -> (r: bool)
    ensures
        r == matched(*m).flags.contains(name@),
{
    match m.try_get_one::<bool>(name) {
        Ok(Some(set)) => *set,
        Ok(None) => false,
        Err(_) => false,
    }
}

/// `clap::Command::render_help`: the help text of a command. It depends on the command alone, since
/// the crate is built without its wrapping to the width of a terminal.
#[verifier::external_body]
fn help_of(mut command: clap::Command) -> (r: String)
    requires
        are_sound(options_of(command)),
    ensures
        r@ == help_page(words_of(command), options_of(command)),
{
    command.render_help().to_string()
}

/// The values of an option.
pub open spec fn values_in(m: MatchedView, name: Seq<char>) -> Seq<Seq<char>> {
    if m.values.dom().contains(name) {
        m.values[name]
    } else {
        seq![]
    }
}

/// The views of a list of options.
pub open spec fn option_views(list: Seq<CliOption>) -> Seq<OptionView> {
    Seq::new(list.len(), |i: int| list[i].view())
}

/// A command line that was read: what it gave for each option.
#[derive(Debug)]
pub struct ReadLine {
    pub values: Vec<(String, Vec<String>)>,
    pub flags: Vec<(String, bool)>,
}

/// View of a [`ReadLine`].
pub ghost struct LineView {
    pub values: Seq<(Seq<char>, Seq<Seq<char>>)>,
    pub flags: Seq<(Seq<char>, bool)>,
}

pub open spec fn value_views(list: Seq<(String, Vec<String>)>) -> Seq<(Seq<char>, Seq<Seq<char>>)> {
    Seq::new(list.len(), |i: int| (list[i].0@, texts(list[i].1@)))
}

pub open spec fn flag_views(list: Seq<(String, bool)>) -> Seq<(Seq<char>, bool)> {
    Seq::new(list.len(), |i: int| (list[i].0@, list[i].1))
}

/// The values of an option.
pub open spec fn values_under(line: LineView, name: Seq<char>) -> Seq<Seq<char>> {
    match entry(line.values, name) {
        Some(values) => values,
        None => seq![],
    }
}

/// The flag is set.
pub open spec fn flag_under(line: LineView, name: Seq<char>) -> bool {
    entry(line.flags, name) == Some(true)
}

/// What matches give for the options.
pub open spec fn taken(options: Seq<OptionView>, m: MatchedView) -> LineView {
    LineView {
        values: Seq::new(
            options.len(),
            |i: int| (options[i].name, values_in(m, options[i].name)),
        ),
        flags: Seq::new(
            options.len(),
            |i: int| (options[i].name, m.flags.contains(options[i].name)),
        ),
    }
}

/// A line that was read gives for an option what the matches give for it.
pub proof fn lemma_taken(options: Seq<OptionView>, m: MatchedView, i: int)
    requires
        0 <= i < options.len(),
    ensures
        values_under(taken(options, m), options[i].name) == values_in(m, options[i].name),
        flag_under(taken(options, m), options[i].name) == m.flags.contains(options[i].name),
{
    let line = taken(options, m);
    let name = options[i].name;
    lemma_place_from(keys(line.values), name, 0);
    lemma_place_from(keys(line.flags), name, 0);
    assert(keys(line.values)[i] == name);
    assert(keys(line.flags)[i] == name);
}

impl ReadLine {
    pub open spec fn view(&self) -> LineView {
        LineView { values: value_views(self.values@), flags: flag_views(self.flags@) }
    }

    /// The values of an option, in order.
    pub fn values(&self, name: &str) -> (r: Vec<String>)
        ensures
            texts(r@) == values_under(self@, name@),
    {
        assert(names(self.values@) =~= keys(self@.values));
        let at = place_of(self.values.as_slice(), name);
        if at < self.values.len() {
            copy_all(self.values[at].1.as_slice())
        } else {
            let none: Vec<String> = Vec::new();
            assert(texts(none@) =~= Seq::<Seq<char>>::empty());
            none
        }
    }

    /// Whether a flag is set.
    pub fn flag(&self, name: &str) -> (r: bool)
        ensures
            r == flag_under(self@, name@),
    {
        assert(names(self.flags@) =~= keys(self@.flags));
        let at = place_of(self.flags.as_slice(), name);
        at < self.flags.len() && self.flags[at].1
    }
}

fn take_matches(options: &[CliOption], m: &clap::ArgMatches) -> (r: ReadLine)
    ensures
        r@ == taken(option_views(options@), matched(*m)),
{
    let ghost views = option_views(options@);
    let ghost whole = taken(views, matched(*m));
    let mut values: Vec<(String, Vec<String>)> = Vec::new();
    let mut flags: Vec<(String, bool)> = Vec::new();
    let mut i: usize = 0;
    while i < options.len()
        invariant
            i <= options@.len(),
            views == option_views(options@),
            whole == taken(views, matched(*m)),
            values@.len() == i,
            flags@.len() == i,
            forall|j: int|
                0 <= j < i ==> ((#[trigger] values@[j]).0@, texts(values@[j].1@))
                    == whole.values[j],
            forall|j: int|
                0 <= j < i ==> ((#[trigger] flags@[j]).0@, flags@[j].1) == whole.flags[j],
        decreases options@.len() - i,
    {
        let name = options[i].name;
        assert(views[i as int].name == name@);
        values.push((copy(name), values_of(m, name)));
        flags.push((copy(name), flag_of(m, name)));
        i = i + 1;
    }
    let r = ReadLine { values, flags };
    assert(r@.values =~= whole.values);
    assert(r@.flags =~= whole.flags);
    r
}

fn build(
    name: &'static str,
    version: &'static str,
    about: &'static str,
    options: &[CliOption],
) -> (r: clap::Command)
    requires
        are_sound(option_views(options@)),
    ensures
        options_of(r) == option_views(options@),
        words_of(r) == (CommandWords { name: name@, version: version@, about: about@ }),
{
    let ghost all = option_views(options@);
    let mut command = new_command(name, version, about);
    let mut i: usize = 0;
    assert(options_of(command) =~= all.take(0));
    while i < options.len()
        invariant
            i <= options@.len(),
            all == option_views(options@),
            are_sound(all),
            options_of(command) == all.take(i as int),
            words_of(command) == (CommandWords { name: name@, version: version@, about: about@ }),
        decreases options@.len() - i,
    {
        assert(all[i as int] == options@[i as int]@);
        command = with_option(command, &options[i]);
        i = i + 1;
        assert(all.take(i as int) =~= all.take(i - 1).push(options@[i - 1]@));
    }
    assert(all.take(all.len() as int) =~= all);
    command
}

/// Reads a command line, whose first element is the name of the program, by the options.
pub fn read_options(
    name: &'static str,
    version: &'static str,
    about: &'static str,
    options: &[CliOption],
    line: &[String],
) -> (r: Result<ReadLine, LineEnd>)
    requires
        are_sound(option_views(options@)),
    ensures
        ({
            let words = CommandWords { name: name@, version: version@, about: about@ };
            let all = option_views(options@);
            let own = read_line(words, all, texts(line@));
            let alike = read_line(words, all, texts(line@).update(0, name@));
            &&& has_plain_name(texts(line@)) ==> match own {
                Ok(m) => r is Ok && r->Ok_0@ == taken(all, m),
                Err(end) => r is Err && r->Err_0@ == end,
            }
            &&& line@.len() > 0 && is_plain_word(name@) ==> match alike {
                Ok(m) => r is Ok && r->Ok_0@ == taken(all, m),
                Err(end) => {
                    &&& r is Err
                    &&& r->Err_0.to_stderr == end.to_stderr
                    &&& r->Err_0.exit_code == end.exit_code
                },
            }
            &&& r is Ok ==> exists|m: MatchedView|
                {
                    &&& r->Ok_0@ == taken(all, m)
                    &&& #[trigger] all_accepted(all, m)
                    &&& line@.len() == 1 ==> only_defaults(all, m)
                }
            &&& line@.len() == 1 ==> r is Ok
        }),
{
    let ghost all = option_views(options@);
    match read(build(name, version, about, options), line) {
        Ok(matches) => {
            assert(all_accepted(all, matched(matches)));
            Ok(take_matches(options, &matches))
        },
        Err(end) => Err(end),
    }
}

/// The help text of a command with these options.
pub fn help_text(
    name: &'static str,
    version: &'static str,
    about: &'static str,
    options: &[CliOption],
) -> (r: String)
    requires
        are_sound(option_views(options@)),
    ensures
        r@ == help_page(
            CommandWords { name: name@, version: version@, about: about@ },
            option_views(options@),
        ),
{
    help_of(build(name, version, about, options))
}

} // verus!
