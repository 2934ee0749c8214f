//! Named commands: registration, aliases, and execution of command lines.
//!
//! `H` is the type of the command handlers, `P` the type of the argument
//! parsers that plugins bring along.

pub mod predefined;

use vstd::prelude::*;
use vstd::string::*;
use regex::Regex;
use crate::error::Error;
use crate::text::{
    chars_of, join2, join3, lemma_names_push, list_contains, names_of, range_eq, str_eq, string_of,
};

verus! {

/// Whether `c` is white space: one of the characters with the Unicode
/// property `White_Space`.
pub open spec fn is_space(c: char) -> bool {
    let n = c as u32;
    (0x09 <= n <= 0x0D) || n == 0x20 || n == 0x85 || n == 0xA0 || n == 0x1680 || (0x2000 <= n
        <= 0x200A) || n == 0x2028 || n == 0x2029 || n == 0x202F || n == 0x205F || n == 0x3000
}

/// Whether `c` is white space.
pub fn is_whitespace(c: char) -> (r: bool)
    ensures
        r == is_space(c),
{
    let n: u32 = c as u32;
    (0x09 <= n && n <= 0x0D) || n == 0x20 || n == 0x85 || n == 0xA0 || n == 0x1680 || (0x2000 <= n
        && n <= 0x200A) || n == 0x2028 || n == 0x2029 || n == 0x202F || n == 0x205F || n == 0x3000
}

/// The first place at or after `from` where `s` holds no white space; the
/// length of `s` if there is none.
pub open spec fn skip_spaces(s: Seq<char>, from: int) -> int
    decreases s.len() - from,
{
    if from < 0 || from >= s.len() {
        s.len() as int
    } else if is_space(s[from]) {
        skip_spaces(s, from + 1)
    } else {
        from
    }
}

/// The first place at or after `from` where `s` holds white space; the
/// length of `s` if there is none.
pub open spec fn skip_word(s: Seq<char>, from: int) -> int
    decreases s.len() - from,
{
    if from < 0 || from >= s.len() {
        s.len() as int
    } else if is_space(s[from]) {
        from
    } else {
        skip_word(s, from + 1)
    }
}

/// The place after the last character of `s[..upto]` that is no white
/// space, but not before `start`.
pub open spec fn before_trailing_spaces(s: Seq<char>, start: int, upto: int) -> int
    decreases upto,
{
    if upto <= start || upto <= 0 || upto > s.len() {
        start
    } else if is_space(s[upto - 1]) {
        before_trailing_spaces(s, start, upto - 1)
    } else {
        upto
    }
}

/// `s` without the white space at its start and at its end.
pub open spec fn trimmed(s: Seq<char>) -> Seq<char> {
    let start = skip_spaces(s, 0);
    if start >= s.len() {
        Seq::empty()
    } else {
        s.subrange(start, before_trailing_spaces(s, start, s.len() as int))
    }
}

/// The name of the command in a command line: the line without white
/// space around it, up to its first white space.
pub open spec fn command_name_of(line: Seq<char>) -> Seq<char> {
    let t = trimmed(line);
    t.subrange(0, skip_word(t, 0))
}

/// The arguments in a command line, as one text: what follows the name of
/// the command and the white space after it.
pub open spec fn arguments_of(line: Seq<char>) -> Seq<char> {
    let t = trimmed(line);
    t.subrange(skip_spaces(t, skip_word(t, 0)), t.len() as int)
}

fn scan_spaces(s: &Vec<char>, from: usize) -> (r: usize)
    requires
        from <= s@.len(),
    ensures
        r == skip_spaces(s@, from as int),
        from <= r <= s@.len(),
{
    let mut i: usize = from;
    while i < s.len() && is_whitespace(s[i])
        invariant
            from <= i <= s@.len(),
            skip_spaces(s@, from as int) == skip_spaces(s@, i as int),
        decreases s@.len() - i,
    {
        i = i + 1;
    }
    i
}

fn scan_word(s: &Vec<char>, from: usize) -> (r: usize)
    requires
        from <= s@.len(),
    ensures
        r == skip_word(s@, from as int),
        from <= r <= s@.len(),
{
    let mut i: usize = from;
    while i < s.len() && !is_whitespace(s[i])
        invariant
            from <= i <= s@.len(),
            skip_word(s@, from as int) == skip_word(s@, i as int),
        decreases s@.len() - i,
    {
        i = i + 1;
    }
    i
}

fn scan_back(s: &Vec<char>, start: usize, upto: usize) -> (r: usize)
    requires
        start <= upto <= s@.len(),
    ensures
        r == before_trailing_spaces(s@, start as int, upto as int),
        start <= r <= upto,
{
    let mut i: usize = upto;
    while i > start && is_whitespace(s[i - 1])
        invariant
            start <= i <= upto,
            upto <= s@.len(),
            before_trailing_spaces(s@, start as int, upto as int) == before_trailing_spaces(
                s@,
                start as int,
                i as int,
            ),
        decreases i,
    {
        i = i - 1;
    }
    i
}

/// `s[..]` without the white space at its start and at its end.
fn trim_chars(s: &Vec<char>) -> (r: Vec<char>)
    ensures
        r@ == trimmed(s@),
{
    let start = scan_spaces(s, 0);
    let mut out: Vec<char> = Vec::new();
    if start >= s.len() {
        return out;
    }
    let end = scan_back(s, start, s.len());
    let mut i: usize = start;
    while i < end
        invariant
            start <= i <= end,
            end <= s@.len(),
            out@ == s@.subrange(start as int, i as int),
        decreases end - i,
    {
        out.push(s[i]);
        assert(s@.subrange(start as int, i as int).push(s@[i as int]) =~= s@.subrange(
            start as int,
            i + 1,
        ));
        i = i + 1;
    }
    out
}

/// Splits a command line into the name of the command and its arguments:
/// the line is taken without the white space around it; the name runs up
/// to the first white space; the arguments are what follows that white space.
pub fn parse_command_line(command_line: &str) -> (r: (String, String))
    ensures
        r.0@ == command_name_of(command_line@),
        r.1@ == arguments_of(command_line@),
{
    let line = chars_of(command_line);
    let t = trim_chars(&line);
    let name_end = scan_word(&t, 0);
    let args_start = scan_spaces(&t, name_end);
    let name = string_of(&t, 0, name_end);
    let args = string_of(&t, args_start, t.len());
    (name, args)
}

/// The words found in the first `n` characters of `s`, and the word that
/// is being read: white space ends a word, everything else belongs to one.
pub open spec fn words_state(s: Seq<char>, n: int) -> (Seq<Seq<char>>, Seq<char>)
    decreases n,
{
    if n <= 0 || n > s.len() {
        (Seq::empty(), Seq::empty())
    } else {
        let (done, current) = words_state(s, n - 1);
        if is_space(s[n - 1]) {
            if current.len() > 0 {
                (done.push(current), Seq::empty())
            } else {
                (done, current)
            }
        } else {
            (done, current.push(s[n - 1]))
        }
    }
}

/// The words of `s`: its runs of characters that are no white space, in order.
pub open spec fn words(s: Seq<char>) -> Seq<Seq<char>> {
    let (done, current) = words_state(s, s.len() as int);
    if current.len() > 0 {
        done.push(current)
    } else {
        done
    }
}

/// Splits `s` at white space into its words.
pub fn split_words(s: &str) -> (r: Vec<String>)
    ensures
        names_of(r@) == words(s@),
{
    let chars = chars_of(s);
    let mut args: Vec<String> = Vec::new();
    let mut current = String::new();
    let mut filled = false;
    let mut i: usize = 0;
    assert(names_of(args@) =~= Seq::<Seq<char>>::empty());
    while i < chars.len()
        invariant
            i <= chars@.len(),
            chars@ == s@,
            names_of(args@) == words_state(s@, i as int).0,
            current@ == words_state(s@, i as int).1,
            filled == (current@.len() > 0),
        decreases chars@.len() - i,
    {
        let c = chars[i];
        if is_whitespace(c) {
            if filled {
                proof {
                    lemma_names_push(args@, current);
                }
                args.push(current);
                current = String::new();
                filled = false;
            }
        } else {
            current.push(c);
            filled = true;
        }
        i = i + 1;
    }
    if filled {
        proof {
            lemma_names_push(args@, current);
        }
        args.push(current);
    }
    args
}

/// Where the reading of key-value arguments stands: the arguments that are
/// complete, the one being read, whether a quote is open, and whether the
/// next character is escaped.
pub struct QuotedState {
    pub done: Seq<Seq<char>>,
    pub current: Seq<char>,
    pub in_quotes: bool,
    pub escape_next: bool,
}

/// The reading of key-value arguments after the first `n` characters of
/// `s`. A backslash escapes the next character; a double quote opens or
/// closes a quoted part, in which spaces do not separate; a space outside
/// quotes ends an argument.
pub open spec fn quoted_state(s: Seq<char>, n: int) -> QuotedState
    decreases n,
{
    if n <= 0 || n > s.len() {
        QuotedState { done: Seq::empty(), current: Seq::empty(), in_quotes: false, escape_next: false }
    } else {
        let before = quoted_state(s, n - 1);
        let c = s[n - 1];
        if before.escape_next {
            QuotedState { current: before.current.push(c), escape_next: false, ..before }
        } else if c == '\\' {
            QuotedState { escape_next: true, ..before }
        } else if c == '"' {
            QuotedState { in_quotes: !before.in_quotes, ..before }
        } else if c == ' ' && !before.in_quotes {
            if before.current.len() > 0 {
                QuotedState { done: before.done.push(before.current), current: Seq::empty(), ..before }
            } else {
                before
            }
        } else {
            QuotedState { current: before.current.push(c), ..before }
        }
    }
}

/// The key-value arguments of `s`: split at spaces, where quotes keep
/// spaces together and a backslash escapes one character.
pub open spec fn quoted_words(s: Seq<char>) -> Seq<Seq<char>> {
    let end = quoted_state(s, s.len() as int);
    if end.current.len() > 0 {
        end.done.push(end.current)
    } else {
        end.done
    }
}

/// Splits `s` into key-value arguments; see [`quoted_words`].
pub fn split_quoted(s: &str) -> (r: Vec<String>)
    ensures
        names_of(r@) == quoted_words(s@),
{
    let chars = chars_of(s);
    let mut args: Vec<String> = Vec::new();
    let mut current = String::new();
    let mut filled = false;
    let mut in_quotes = false;
    let mut escape_next = false;
    let mut i: usize = 0;
    assert(names_of(args@) =~= Seq::<Seq<char>>::empty());
    while i < chars.len()
        invariant
            i <= chars@.len(),
            chars@ == s@,
            names_of(args@) == quoted_state(s@, i as int).done,
            current@ == quoted_state(s@, i as int).current,
            in_quotes == quoted_state(s@, i as int).in_quotes,
            escape_next == quoted_state(s@, i as int).escape_next,
            filled == (current@.len() > 0),
        decreases chars@.len() - i,
    {
        let c = chars[i];
        if escape_next {
            current.push(c);
            filled = true;
            escape_next = false;
        } else if c == '\\' {
            escape_next = true;
        } else if c == '"' {
            in_quotes = !in_quotes;
        } else if c == ' ' && !in_quotes {
            if filled {
                proof {
                    lemma_names_push(args@, current);
                }
                args.push(current);
                current = String::new();
                filled = false;
            }
        } else {
            current.push(c);
            filled = true;
        }
        i = i + 1;
    }
    if filled {
        proof {
            lemma_names_push(args@, current);
        }
        args.push(current);
    }
    args
}

/// `regex::Regex`, a compiled regular expression.
#[verifier::external_type_specification]
#[verifier::external_body]
pub struct ExRegex(Regex);

/// The pattern that a regular expression was compiled from.
pub uninterp spec fn regex_pattern(re: Regex) -> Seq<char>;

/// Whether `Regex::new` compiles `pattern`.
pub uninterp spec fn regex_accepts(pattern: Seq<char>) -> bool;

/// Whether a regular expression was made by `Regex::new`, with no option
/// beside its pattern.
pub uninterp spec fn regex_is_plain(re: Regex) -> bool;

/// What `Regex::captures` finds for the regular expression compiled from
/// `pattern` in `text`: nothing where the text has no match, else the text
/// of each capture group of the first match, group 0 being the whole match
/// and a group that took no part being absent.
pub uninterp spec fn captures_of(pattern: Seq<char>, text: Seq<char>) -> Option<Seq<Option<Seq<char>>>>;

/// The texts of a list of capture groups.
pub open spec fn groups_of(groups: Seq<Option<String>>) -> Seq<Option<Seq<char>>> {
    groups.map_values(
        |g: Option<String>|
            match g {
                Some(t) => Some(t@),
                None => None,
            },
    )
}

/// `Regex::new` compiles a pattern; the regular expression remembers it.
/// Where the pattern does not compile, the reason is handed on as text, of
/// which nothing is claimed.
#[verifier::external_body]
fn regex_new(pattern: &str) -> (r: Result<Regex, String>)
    ensures
        r is Ok <==> regex_accepts(pattern@),
        r matches Ok(re) ==> regex_pattern(re) == pattern@ && regex_is_plain(re),
{
    Regex::new(pattern).map_err(|e| e.to_string())
}

/// `Regex::captures` searches `text` for the first match and gives the text
/// of each capture group. For a regular expression made by `Regex::new`
/// the pattern and the text decide what is found.
#[verifier::external_body]
fn regex_captures(re: &Regex, text: &str) -> (r: Option<Vec<Option<String>>>)
    requires
        regex_is_plain(*re),
    ensures
        match r {
            Some(groups) => captures_of(regex_pattern(*re), text@) == Some(groups_of(groups@)),
            None => captures_of(regex_pattern(*re), text@) is None,
        },
{
    re.captures(text).map(|c| c.iter().map(|m| m.map(|x| x.as_str().to_string())).collect())
}

/// An argument parser made from a regular expression.
pub struct PatternParser {
    regex: Regex,
    pattern: String,
}

impl PatternParser {
    /// The pattern.
    pub closed spec fn pattern(&self) -> Seq<char> {
        self.pattern@
    }

    #[verifier::type_invariant]
    spec fn inv(&self) -> bool {
        regex_pattern(self.regex) == self.pattern@ && regex_is_plain(self.regex)
    }
}

/// How the arguments of a command are split.
pub enum ArgumentParser<P> {
    /// At spaces, with quotes and escapes; see [`quoted_words`].
    KeyValue,
    /// By the capture groups of a regular expression.
    Pattern(PatternParser),
    /// By a function of the plugin.
    Custom(P),
}

/// The texts of the groups `groups[1..n]` that are present, in order.
pub open spec fn present_upto(groups: Seq<Option<Seq<char>>>, n: int) -> Seq<Seq<char>>
    decreases n,
{
    if n <= 1 || n > groups.len() {
        Seq::empty()
    } else {
        match groups[n - 1] {
            Some(t) => present_upto(groups, n - 1).push(t),
            None => present_upto(groups, n - 1),
        }
    }
}

/// The texts of the capture groups that are present, without group 0.
pub open spec fn present_groups(groups: Seq<Option<Seq<char>>>) -> Seq<Seq<char>> {
    present_upto(groups, groups.len() as int)
}

/// The arguments that the capture groups of a match give: the text of each
/// group but group 0, in order, leaving out the groups that took no part.
pub fn arguments_from_groups(groups: &Vec<Option<String>>) -> (r: Vec<String>)
    ensures
        names_of(r@) == present_groups(groups_of(groups@)),
{
    let mut args: Vec<String> = Vec::new();
    let mut i: usize = 1;
    assert(names_of(args@) =~= Seq::<Seq<char>>::empty());
    if groups.len() <= 1 {
        return args;
    }
    while i < groups.len()
        invariant
            1 <= i <= groups@.len(),
            names_of(args@) == present_upto(groups_of(groups@), i as int),
        decreases groups@.len() - i,
    {
        assert(groups_of(groups@)[i as int] == match groups@[i as int] {
            Some(t) => Some(t@),
            None => None::<Seq<char>>,
        });
        match &groups[i] {
            Some(t) => {
                let text = t.clone();
                proof {
                    lemma_names_push(args@, text);
                }
                args.push(text);
            },
            None => {},
        }
        i = i + 1;
    }
    args
}

/// A command.
pub struct Command<H, P> {
    /// The name, unique among the registered commands.
    pub name: String,
    /// What the command does.
    pub description: String,
    /// What runs the command.
    pub handler: H,
    /// How the arguments are split; at white space where nothing is given.
    pub argument_parser: Option<ArgumentParser<P>>,
    /// The permissions that the command asks for.
    pub permissions: Option<Vec<String>>,
    /// Other names of the command.
    pub aliases: Vec<String>,
    /// The plugin that registered the command.
    pub plugin: String,
}

/// Whether `r` is the refusal of a command with the message `text`.
pub open spec fn is_command_error<T>(r: Result<T, Error>, text: Seq<char>) -> bool {
    r matches Err(Error::Command(m)) && m@ == text
}

impl<H: Fn(&str, &[String]) -> Result<String, Error>, P: Fn(&str) -> Result<Vec<String>, Error>> Command<
    H,
    P,
> {
    /// The handler can be called with every name and every list of
    /// arguments, and the parser of the plugin, if there is one, with every text.
    pub open spec fn callable(&self) -> bool {
        &&& forall|n: &str, a: &[String]| #[trigger] call_requires(self.handler, (n, a))
        &&& self.argument_parser matches Some(ArgumentParser::Custom(f)) ==> forall|t: &str| #[trigger]
            call_requires(f, (t,))
    }

    /// What parsing the arguments `args` gives.
    pub open spec fn parsed(&self, args: Seq<char>, r: Result<Vec<String>, Error>) -> bool {
        match self.argument_parser {
            None => (r matches Ok(v) && names_of(v@) == words(args)),
            Some(ArgumentParser::KeyValue) => (r matches Ok(v) && names_of(v@) == quoted_words(args)),
            Some(ArgumentParser::Pattern(p)) => match captures_of(p.pattern(), args) {
                None => is_command_error(r, "Arguments don't match pattern: "@ + p.pattern()),
                Some(groups) => (r matches Ok(v) && names_of(v@) == present_groups(groups)),
            },
            Some(ArgumentParser::Custom(f)) => exists|t: &str| t@ == args && #[trigger] call_ensures(f, (t,), r),
        }
    }

    /// What running the command on the arguments `args` gives: the error
    /// of the parser, or what the handler returns for the name of the
    /// command and the parsed arguments.
    pub open spec fn executed(&self, args: Seq<char>, r: Result<String, Error>) -> bool {
        exists|parsed: Result<Vec<String>, Error>| #[trigger]
            self.parsed(args, parsed) && match parsed {
                Err(e) => r == Err::<String, Error>(e),
                Ok(list) => exists|n: &str, a: &[String]|
                    n@ == self.name@ && a@ == list@ && #[trigger] call_ensures(self.handler, (n, a), r),
            }
    }

    /// A command without parser, permissions and aliases.
    pub fn new(name: &str, description: &str, handler: H, plugin: &str) -> (r: Self)
        ensures
            r.name@ == name@,
            r.description@ == description@,
            r.handler == handler,
            r.argument_parser is None,
            r.permissions is None,
            r.aliases@.len() == 0,
            r.plugin@ == plugin@,
    {
        Command {
            name: String::from_str(name),
            description: String::from_str(description),
            handler,
            argument_parser: None,
            permissions: None,
            aliases: Vec::new(),
            plugin: String::from_str(plugin),
        }
    }

    /// The command with `parser` as its argument parser.
    pub fn with_argument_parser(self, parser: ArgumentParser<P>) -> (r: Self)
        ensures
            r == (Command { argument_parser: Some(parser), ..self }),
    {
        let mut c = self;
        c.argument_parser = Some(parser);
        c
    }

    /// The command with `permissions` as its permissions.
    pub fn with_permissions(self, permissions: Vec<String>) -> (r: Self)
        ensures
            r == (Command { permissions: Some(permissions), ..self }),
    {
        let mut c = self;
        c.permissions = Some(permissions);
        c
    }

    /// The command with `aliases` as its aliases.
    pub fn with_aliases(self, aliases: Vec<String>) -> (r: Self)
        ensures
            r == (Command { aliases, ..self }),
    {
        let mut c = self;
        c.aliases = aliases;
        c
    }

    /// Splits the arguments `args_str` with the parser of the command; at
    /// white space where it has none.
    pub fn parse_arguments(&self, args_str: &str) -> (r: Result<Vec<String>, Error>)
        requires
            self.callable(),
        ensures
            self.parsed(args_str@, r),
    {
        match &self.argument_parser {
            None => Ok(split_words(args_str)),
            Some(ArgumentParser::KeyValue) => Ok(split_quoted(args_str)),
            Some(ArgumentParser::Pattern(p)) => {
                proof {
                    use_type_invariant(p);
                }
                match regex_captures(&p.regex, args_str) {
                    None => Err(
                        Error::Command(join2("Arguments don't match pattern: ", p.pattern.as_str())),
                    ),
                    Some(groups) => Ok(arguments_from_groups(&groups)),
                }
            },
            Some(ArgumentParser::Custom(f)) => f(args_str),
        }
    }

    /// Runs the command on the arguments `args_str`.
    pub fn execute(&self, args_str: &str) -> (r: Result<String, Error>)
        requires
            self.callable(),
        ensures
            self.executed(args_str@, r),
    {
        let parsed = self.parse_arguments(args_str);
        match parsed {
            Err(e) => {
                let r = Err(e);
                assert(self.parsed(args_str@, parsed));
                r
            },
            Ok(args) => {
                let handler = &self.handler;
                let r = handler(self.name.as_str(), args.as_slice());
                assert(self.parsed(args_str@, parsed));
                r
            },
        }
    }

    /// Whether `name` is the name of the command or one of its aliases.
    pub fn matches(&self, name: &str) -> (r: bool)
        ensures
            r == (self.name@ == name@ || names_of(self.aliases@).contains(name@)),
    {
        str_eq(self.name.as_str(), name) || list_contains(self.aliases.as_slice(), name)
    }
}

/// Whether `needle` occurs in `hay` as a part.
pub open spec fn has_part(hay: Seq<char>, needle: Seq<char>) -> bool {
    exists|i: int|
        0 <= i <= hay.len() - needle.len() && #[trigger] hay.subrange(i, i + needle.len()) == needle
}

/// Whether `needle` occurs in `hay` as a part.
pub fn contains_text(hay: &str, needle: &str) -> (r: bool)
    ensures
        r == has_part(hay@, needle@),
{
    let h = chars_of(hay);
    let n = chars_of(needle);
    if n.len() > h.len() {
        return false;
    }
    let last: usize = h.len() - n.len();
    let mut i: usize = 0;
    assert(n@.subrange(0, n@.len() as int) =~= n@);
    while i < last
        invariant
            i <= last,
            last == h@.len() - n@.len(),
            h@.len() <= usize::MAX,
            h@ == hay@,
            n@ == needle@,
            n@.subrange(0, n@.len() as int) == n@,
            forall|k: int| 0 <= k < i ==> #[trigger] h@.subrange(k, k + n@.len()) != n@,
        decreases last - i,
    {
        if range_eq(&h, i, i + n.len(), &n, 0, n.len()) {
            assert(h@.subrange(i as int, i + n@.len()) == n@);
            return true;
        }
        i = i + 1;
    }
    let found = range_eq(&h, last, last + n.len(), &n, 0, n.len());
    proof {
        if found {
            assert(h@.subrange(last as int, last + n@.len()) == n@);
        }
    }
    found
}

/// Counts that describe a command registry.
#[derive(Debug, Clone)]
pub struct CommandRegistryStats {
    /// Number of commands.
    pub total_commands: usize,
    /// Number of aliases.
    pub total_aliases: usize,
    /// Number of plugins with a command.
    pub plugins: usize,
}

/// Whether no alias occurs twice in `aliases`.
pub open spec fn aliases_distinct(aliases: Seq<(String, String)>) -> bool {
    forall|i: int, j: int|
        0 <= i < j < aliases.len() ==> (#[trigger] aliases[i]).0@ != (#[trigger] aliases[j]).0@
}

/// The name that `alias` stands for in `aliases`, if it is an alias.
pub open spec fn target_in(aliases: Seq<(String, String)>, alias: Seq<char>) -> Option<Seq<char>> {
    if exists|i: int| 0 <= i < aliases.len() && (#[trigger] aliases[i]).0@ == alias {
        let i = choose|i: int| 0 <= i < aliases.len() && (#[trigger] aliases[i]).0@ == alias;
        Some(aliases[i].1@)
    } else {
        None
    }
}

fn find_alias(aliases: &Vec<(String, String)>, alias: &str) -> (r: Option<usize>)
    requires
        aliases_distinct(aliases@),
    ensures
        match r {
            Some(i) => i < aliases@.len() && aliases@[i as int].0@ == alias@ && target_in(
                aliases@,
                alias@,
            ) == Some(aliases@[i as int].1@),
            None => target_in(aliases@, alias@) is None && forall|j: int|
                0 <= j < aliases@.len() ==> (#[trigger] aliases@[j]).0@ != alias@,
        },
{
    let mut i: usize = 0;
    while i < aliases.len()
        invariant
            aliases_distinct(aliases@),
            i <= aliases@.len(),
            forall|j: int| 0 <= j < i ==> (#[trigger] aliases@[j]).0@ != alias@,
        decreases aliases@.len() - i,
    {
        if str_eq(aliases[i].0.as_str(), alias) {
            proof {
                let k = choose|k: int| 0 <= k < aliases@.len() && (#[trigger] aliases@[k]).0@ == alias@;
                if k < i {
                    assert(aliases@[k].0@ != alias@);
                } else if k > i {
                    assert(aliases@[i as int].0@ != aliases@[k].0@);
                }
            }
            return Some(i);
        }
        i = i + 1;
    }
    None
}

/// Makes `alias` stand for `target`, whatever it stood for.
fn set_alias(aliases: &mut Vec<(String, String)>, alias: &str, target: &str)
    requires
        aliases_distinct(old(aliases)@),
    ensures
        aliases_distinct(final(aliases)@),
        forall|a: Seq<char>| #[trigger]
            target_in(final(aliases)@, a) == if a == alias@ {
                Some(target@)
            } else {
                target_in(old(aliases)@, a)
            },
        final(aliases)@.len() == old(aliases)@.len() + if target_in(old(aliases)@, alias@) is Some {
            0int
        } else {
            1int
        },
{
    let found = find_alias(aliases, alias);
    let entry = (String::from_str(alias), String::from_str(target));
    match found {
        Some(i) => {
            aliases.set(i, entry);
            assert forall|a: int, b: int| 0 <= a < b < aliases@.len() implies (#[trigger] aliases@[a]).0@
                != (#[trigger] aliases@[b]).0@ by {
                assert(old(aliases)@[a].0@ != old(aliases)@[b].0@);
                assert(aliases@[a].0@ == old(aliases)@[a].0@);
                assert(aliases@[b].0@ == old(aliases)@[b].0@);
            }
            assert forall|a: Seq<char>| #[trigger]
                target_in(aliases@, a) == if a == alias@ {
                    Some(target@)
                } else {
                    target_in(old(aliases)@, a)
                } by {
                lemma_target(aliases@, i as int);
                if a != alias@ {
                    lemma_target_same(old(aliases)@, aliases@, a, i as int);
                }
            }
        },
        None => {
            aliases.push(entry);
            let ghost n = old(aliases)@.len() as int;
            assert forall|a: int, b: int| 0 <= a < b < aliases@.len() implies (#[trigger] aliases@[a]).0@
                != (#[trigger] aliases@[b]).0@ by {
                assert(aliases@[a] == old(aliases)@[a]);
                if b < n {
                    assert(aliases@[b] == old(aliases)@[b]);
                }
            }
            assert forall|a: Seq<char>| #[trigger]
                target_in(aliases@, a) == if a == alias@ {
                    Some(target@)
                } else {
                    target_in(old(aliases)@, a)
                } by {
                lemma_target(aliases@, n);
                if a != alias@ {
                    if target_in(old(aliases)@, a) is Some {
                        let k = choose|k: int|
                            0 <= k < old(aliases)@.len() && (#[trigger] old(aliases)@[k]).0@ == a;
                        assert(aliases@[k] == old(aliases)@[k]);
                        lemma_target(aliases@, k);
                        lemma_target(old(aliases)@, k);
                    } else if target_in(aliases@, a) is Some {
                        let k = choose|k: int| 0 <= k < aliases@.len() && (#[trigger] aliases@[k]).0@ == a;
                        assert(k < n);
                        assert(aliases@[k] == old(aliases)@[k]);
                    }
                }
            }
        },
    }
}

/// Makes `alias` stand for nothing.
fn remove_alias(aliases: &mut Vec<(String, String)>, alias: &str)
    requires
        aliases_distinct(old(aliases)@),
    ensures
        aliases_distinct(final(aliases)@),
        forall|a: Seq<char>| #[trigger]
            target_in(final(aliases)@, a) == if a == alias@ {
                None
            } else {
                target_in(old(aliases)@, a)
            },
{
    match find_alias(aliases, alias) {
        None => {},
        Some(i) => {
            let _ = aliases.remove(i);
            let ghost before = old(aliases)@;
            assert forall|k: int| 0 <= k < aliases@.len() implies #[trigger] aliases@[k] == before[if k
                < i {
                k
            } else {
                k + 1
            }] by {}
            assert forall|a: int, b: int| 0 <= a < b < aliases@.len() implies (#[trigger] aliases@[a]).0@
                != (#[trigger] aliases@[b]).0@ by {
                let oa = if a < i {
                    a
                } else {
                    a + 1
                };
                let ob = if b < i {
                    b
                } else {
                    b + 1
                };
                assert(before[oa].0@ != before[ob].0@);
            }
            assert forall|a: Seq<char>| #[trigger]
                target_in(aliases@, a) == if a == alias@ {
                    None
                } else {
                    target_in(before, a)
                } by {
                if target_in(aliases@, a) is Some {
                    let k = choose|k: int| 0 <= k < aliases@.len() && (#[trigger] aliases@[k]).0@ == a;
                    let o = if k < i {
                        k
                    } else {
                        k + 1
                    };
                    assert(aliases@[k] == before[o]);
                    lemma_target(before, o);
                    lemma_target(aliases@, k);
                    if a == alias@ {
                        if o < i {
                            assert(before[o].0@ != before[i as int].0@);
                        } else {
                            assert(before[i as int].0@ != before[o].0@);
                        }
                    }
                }
                if a != alias@ && target_in(before, a) is Some {
                    let o = choose|o: int| 0 <= o < before.len() && (#[trigger] before[o]).0@ == a;
                    let k = if o < i {
                        o
                    } else {
                        o - 1
                    };
                    assert(aliases@[k] == before[o]);
                    lemma_target(before, o);
                    lemma_target(aliases@, k);
                }
            }
        },
    }
}

/// Among distinct aliases, the one at `i` stands for the name at `i`.
proof fn lemma_target(aliases: Seq<(String, String)>, i: int)
    requires
        aliases_distinct(aliases),
        0 <= i < aliases.len(),
    ensures
        target_in(aliases, aliases[i].0@) == Some(aliases[i].1@),
{
    let k = choose|k: int| 0 <= k < aliases.len() && (#[trigger] aliases[k]).0@ == aliases[i].0@;
    if k < i {
        assert(aliases[k].0@ != aliases[i].0@);
    } else if k > i {
        assert(aliases[i].0@ != aliases[k].0@);
    }
}

/// Replacing the entry at `i` by one for the same alias changes no other alias.
proof fn lemma_target_same(before: Seq<(String, String)>, after: Seq<(String, String)>, a: Seq<char>, i: int)
    requires
        aliases_distinct(before),
        aliases_distinct(after),
        0 <= i < before.len(),
        after.len() == before.len(),
        forall|j: int| 0 <= j < before.len() && j != i ==> after[j] == before[j],
        after[i].0@ == before[i].0@,
        a != before[i].0@,
    ensures
        target_in(after, a) == target_in(before, a),
{
    if target_in(before, a) is Some {
        let k = choose|k: int| 0 <= k < before.len() && (#[trigger] before[k]).0@ == a;
        assert(after[k] == before[k]);
        lemma_target(before, k);
        lemma_target(after, k);
    } else if target_in(after, a) is Some {
        let k = choose|k: int| 0 <= k < after.len() && (#[trigger] after[k]).0@ == a;
        assert(after[k] == before[k]);
    }
}

/// The commands of `commands` that `plugin` did not register, in order.
pub open spec fn not_from<H, P>(commands: Seq<Command<H, P>>, plugin: Seq<char>) -> Seq<Command<H, P>>
    decreases commands.len(),
{
    if commands.len() == 0 {
        Seq::empty()
    } else if commands.last().plugin@ == plugin {
        not_from(commands.drop_last(), plugin)
    } else {
        not_from(commands.drop_last(), plugin).push(commands.last())
    }
}

/// Whether `alias` is an alias of a command of `commands` that `plugin` registered.
pub open spec fn alias_from<H, P>(commands: Seq<Command<H, P>>, plugin: Seq<char>, alias: Seq<char>) -> bool {
    exists|j: int|
        0 <= j < commands.len() && (#[trigger] commands[j]).plugin@ == plugin && names_of(
            commands[j].aliases@,
        ).contains(alias)
}

/// Whether `commands` holds a command that `plugin` registered.
pub open spec fn has_plugin<H, P>(commands: Seq<Command<H, P>>, plugin: Seq<char>) -> bool {
    exists|j: int| 0 <= j < commands.len() && (#[trigger] commands[j]).plugin@ == plugin
}

/// The number of different plugins that registered the commands of `commands`.
pub open spec fn plugin_count<H, P>(commands: Seq<Command<H, P>>) -> nat
    decreases commands.len(),
{
    if commands.len() == 0 {
        0
    } else if has_plugin(commands.drop_last(), commands.last().plugin@) {
        plugin_count(commands.drop_last())
    } else {
        plugin_count(commands.drop_last()) + 1
    }
}

proof fn lemma_plugin_count_bound<H, P>(commands: Seq<Command<H, P>>)
    ensures
        plugin_count(commands) <= commands.len(),
    decreases commands.len(),
{
    if commands.len() > 0 {
        lemma_plugin_count_bound(commands.drop_last());
    }
}

/// The registered commands and their aliases.
pub struct CommandRegistry<H, P> {
    commands: Vec<Command<H, P>>,
    aliases: Vec<(String, String)>,
}

impl<H: Fn(&str, &[String]) -> Result<String, Error>, P: Fn(&str) -> Result<Vec<String>, Error>> CommandRegistry<
    H,
    P,
> {
    /// The commands, in the order in which they were registered.
    pub closed spec fn commands(&self) -> Seq<Command<H, P>> {
        self.commands@
    }

    /// The aliases, each with the name that it stands for.
    pub closed spec fn aliases(&self) -> Seq<(String, String)> {
        self.aliases@
    }

    /// No two commands have the same name, no alias occurs twice, and every
    /// command can be called.
    pub open spec fn wf(&self) -> bool {
        &&& forall|i: int, j: int|
            0 <= i < j < self.commands().len() ==> (#[trigger] self.commands()[i]).name@ != (
            #[trigger] self.commands()[j]).name@
        &&& aliases_distinct(self.aliases())
        &&& forall|i: int| 0 <= i < self.commands().len() ==> (#[trigger] self.commands()[i]).callable()
    }

    /// The place of the command `name`, if it is registered.
    pub open spec fn position(&self, name: Seq<char>) -> Option<int> {
        if exists|i: int| 0 <= i < self.commands().len() && (#[trigger] self.commands()[i]).name@ == name {
            Some(
                choose|i: int|
                    0 <= i < self.commands().len() && (#[trigger] self.commands()[i]).name@ == name,
            )
        } else {
            None
        }
    }

    /// The name that `alias` stands for, if it is an alias.
    pub open spec fn alias_target(&self, alias: Seq<char>) -> Option<Seq<char>> {
        target_in(self.aliases(), alias)
    }

    /// The name of the command that `name` means: what it stands for
    /// where it is an alias, else itself.
    pub open spec fn resolved(&self, name: Seq<char>) -> Seq<char> {
        match self.alias_target(name) {
            Some(target) => target,
            None => name,
        }
    }

    /// The message that `name` is registered already.
    pub open spec fn registered_text(name: Seq<char>) -> Seq<char> {
        "Command '"@ + name + "' already registered"@
    }

    /// The message that `name` is not registered.
    pub open spec fn not_found_text(name: Seq<char>) -> Seq<char> {
        "Command '"@ + name + "' not found"@
    }

    /// A registry without commands.
    pub fn new() -> (r: Self)
        ensures
            r.wf(),
            r.commands().len() == 0,
            r.aliases().len() == 0,
    {
        CommandRegistry { commands: Vec::new(), aliases: Vec::new() }
    }

    fn find(&self, name: &str) -> (r: Option<usize>)
        requires
            self.wf(),
        ensures
            match r {
                Some(i) => self.position(name@) == Some(i as int) && i < self.commands().len()
                    && self.commands()[i as int].name@ == name@,
                None => self.position(name@) is None,
            },
    {
        let mut i: usize = 0;
        while i < self.commands.len()
            invariant
                self.wf(),
                i <= self.commands().len(),
                forall|j: int| 0 <= j < i ==> (#[trigger] self.commands()[j]).name@ != name@,
            decreases self.commands().len() - i,
        {
            if str_eq(self.commands[i].name.as_str(), name) {
                proof {
                    let k = self.position(name@)->0;
                    if k < i {
                        assert(self.commands()[k].name@ != name@);
                    } else if k > i {
                        assert(self.commands()[i as int].name@ != self.commands()[k].name@);
                    }
                }
                return Some(i);
            }
            i = i + 1;
        }
        None
    }

    /// The name of the command that `name` means.
    fn resolve(&self, name: &str) -> (r: String)
        requires
            self.wf(),
        ensures
            r@ == self.resolved(name@),
    {
        match find_alias(&self.aliases, name) {
            Some(i) => self.aliases[i].1.clone(),
            None => String::from_str(name),
        }
    }

    /// Registers `command`. A command whose name is registered already is
    /// refused, and nothing changes. Otherwise the command joins the
    /// registry and each of its aliases stands for it from now on, whatever
    /// the alias stood for before.
    pub fn register(&mut self, command: Command<H, P>) -> (r: Result<(), Error>)
        requires
            old(self).wf(),
            command.callable(),
        ensures
            final(self).wf(),
            old(self).position(command.name@) is Some ==> final(self).commands() == old(self).commands() && final(self).aliases() == old(self).aliases() && is_command_error(
                r,
                Self::registered_text(command.name@),
            ),
            old(self).position(command.name@) is None ==> r is Ok && final(self).commands() == old(self).commands().push(command) && (forall|a: Seq<char>| #[trigger]
                final(self).alias_target(a) == if names_of(command.aliases@).contains(a) {
                    Some(command.name@)
                } else {
                    old(self).alias_target(a)
                }),
    {
        if self.find(command.name.as_str()).is_some() {
            return Err(Error::Command(join3("Command '", command.name.as_str(), "' already registered")));
        }
        let ghost list = names_of(command.aliases@);
        let ghost name = command.name@;
        let mut k: usize = 0;
        while k < command.aliases.len()
            invariant
                k <= command.aliases@.len(),
                list == names_of(command.aliases@),
                name == command.name@,
                aliases_distinct(self.aliases()),
                self.commands() == old(self).commands(),
                forall|a: Seq<char>| #[trigger]
                    target_in(self.aliases(), a) == if exists|j: int| 0 <= j < k && list[j] == a {
                        Some(name)
                    } else {
                        target_in(old(self).aliases(), a)
                    },
            decreases command.aliases@.len() - k,
        {
            let ghost before = self.aliases();
            set_alias(&mut self.aliases, command.aliases[k].as_str(), command.name.as_str());
            proof {
                assert(list[k as int] == command.aliases@[k as int]@);
                assert forall|a: Seq<char>| #[trigger]
                    target_in(self.aliases(), a) == if exists|j: int| 0 <= j < k + 1 && list[j] == a {
                        Some(name)
                    } else {
                        target_in(old(self).aliases(), a)
                    } by {
                    let now = target_in(self.aliases(), a);
                    let earlier = target_in(before, a);
                    assert(now == if a == list[k as int] {
                        Some(name)
                    } else {
                        earlier
                    });
                    if exists|j: int| 0 <= j < k && list[j] == a {
                        let j = choose|j: int| 0 <= j < k && list[j] == a;
                        assert(0 <= j < k + 1 && list[j] == a);
                    }
                    if exists|j: int| 0 <= j < k + 1 && list[j] == a {
                        let j = choose|j: int| 0 <= j < k + 1 && list[j] == a;
                        if j < k {
                            assert(0 <= j < k && list[j] == a);
                        }
                    } else {
                        assert(!(0 <= k < k + 1 && list[k as int] == a));
                    }
                }
            }
            k = k + 1;
        }
        proof {
            assert forall|a: Seq<char>| #[trigger]
                target_in(self.aliases(), a) == if list.contains(a) {
                    Some(name)
                } else {
                    target_in(old(self).aliases(), a)
                } by {
                if list.contains(a) {
                    let j = choose|j: int| 0 <= j < list.len() && list[j] == a;
                    assert(0 <= j < k && list[j] == a);
                }
            }
        }
        self.commands.push(command);
        proof {
            assert forall|a: int, b: int| 0 <= a < b < self.commands().len() implies (
            #[trigger] self.commands()[a]).name@ != (#[trigger] self.commands()[b]).name@ by {
                assert(self.commands()[a] == old(self).commands()[a]);
                if b < old(self).commands().len() {
                    assert(self.commands()[b] == old(self).commands()[b]);
                }
            }
            assert forall|i: int| 0 <= i < self.commands().len() implies (
            #[trigger] self.commands()[i]).callable() by {
                if i < old(self).commands().len() {
                    assert(self.commands()[i] == old(self).commands()[i]);
                }
            }
        }
        Ok(())
    }

    /// Removes the aliases `list` from the alias map.
    fn remove_aliases(&mut self, list: &Vec<String>)
        requires
            aliases_distinct(old(self).aliases()),
        ensures
            aliases_distinct(final(self).aliases()),
            final(self).commands() == old(self).commands(),
            forall|a: Seq<char>| #[trigger]
                target_in(final(self).aliases(), a) == if names_of(list@).contains(a) {
                    None
                } else {
                    target_in(old(self).aliases(), a)
                },
    {
        let ghost names = names_of(list@);
        let mut k: usize = 0;
        while k < list.len()
            invariant
                k <= list@.len(),
                names == names_of(list@),
                aliases_distinct(self.aliases()),
                self.commands() == old(self).commands(),
                forall|a: Seq<char>| #[trigger]
                    target_in(self.aliases(), a) == if exists|j: int| 0 <= j < k && names[j] == a {
                        None
                    } else {
                        target_in(old(self).aliases(), a)
                    },
            decreases list@.len() - k,
        {
            let ghost before = self.aliases();
            remove_alias(&mut self.aliases, list[k].as_str());
            proof {
                assert(names[k as int] == list@[k as int]@);
                assert forall|a: Seq<char>| #[trigger]
                    target_in(self.aliases(), a) == if exists|j: int| 0 <= j < k + 1 && names[j] == a {
                        None
                    } else {
                        target_in(old(self).aliases(), a)
                    } by {
                    let now = target_in(self.aliases(), a);
                    let earlier = target_in(before, a);
                    assert(now == if a == names[k as int] {
                        None
                    } else {
                        earlier
                    });
                    if exists|j: int| 0 <= j < k && names[j] == a {
                        let j = choose|j: int| 0 <= j < k && names[j] == a;
                        assert(0 <= j < k + 1 && names[j] == a);
                    }
                    if exists|j: int| 0 <= j < k + 1 && names[j] == a {
                        let j = choose|j: int| 0 <= j < k + 1 && names[j] == a;
                        if j < k {
                            assert(0 <= j < k && names[j] == a);
                        }
                    } else {
                        assert(!(0 <= k < k + 1 && names[k as int] == a));
                    }
                }
            }
            k = k + 1;
        }
        proof {
            assert forall|a: Seq<char>| #[trigger]
                target_in(self.aliases(), a) == if names.contains(a) {
                    None
                } else {
                    target_in(old(self).aliases(), a)
                } by {
                if names.contains(a) {
                    let j = choose|j: int| 0 <= j < names.len() && names[j] == a;
                    assert(0 <= j < k && names[j] == a);
                }
            }
        }
    }

    /// Removes the command that `name` means, with its aliases. Fails,
    /// changing nothing, where no such command is registered.
    pub fn unregister(&mut self, name: &str) -> (r: Result<(), Error>)
        requires
            old(self).wf(),
        ensures
            final(self).wf(),
            match old(self).position(old(self).resolved(name@)) {
                None => final(self).commands() == old(self).commands() && final(self).aliases() == old(self).aliases() && is_command_error(r, Self::not_found_text(name@)),
                Some(i) => r is Ok && final(self).commands() == old(self).commands().remove(i) && (
                forall|a: Seq<char>| #[trigger]
                    final(self).alias_target(a) == if names_of(old(self).commands()[i].aliases@).contains(
                        a,
                    ) {
                        None
                    } else {
                        old(self).alias_target(a)
                    }),
            },
    {
        let actual = self.resolve(name);
        match self.find(actual.as_str()) {
            None => Err(Error::Command(join3("Command '", name, "' not found"))),
            Some(i) => {
                let command = self.commands.remove(i);
                self.remove_aliases(&command.aliases);
                proof {
                    self.lemma_removed(old(self), i as int);
                }
                Ok(())
            },
        }
    }

    /// Taking one command out keeps the others distinct and callable.
    proof fn lemma_removed(&self, before: &CommandRegistry<H, P>, i: int)
        requires
            before.wf(),
            0 <= i < before.commands().len(),
            self.commands() == before.commands().remove(i),
            aliases_distinct(self.aliases()),
        ensures
            self.wf(),
    {
        assert forall|k: int| 0 <= k < self.commands().len() implies #[trigger] self.commands()[k]
            == before.commands()[if k < i {
            k
        } else {
            k + 1
        }] by {}
        assert forall|a: int, b: int| 0 <= a < b < self.commands().len() implies (
        #[trigger] self.commands()[a]).name@ != (#[trigger] self.commands()[b]).name@ by {
            let oa = if a < i {
                a
            } else {
                a + 1
            };
            let ob = if b < i {
                b
            } else {
                b + 1
            };
            assert(before.commands()[oa].name@ != before.commands()[ob].name@);
        }
        assert forall|k: int| 0 <= k < self.commands().len() implies (
        #[trigger] self.commands()[k]).callable() by {
            let o = if k < i {
                k
            } else {
                k + 1
            };
            assert(before.commands()[o].callable());
        }
    }

    /// Removes every command that `plugin` registered, with their aliases,
    /// all at once. The other commands stay, in order.
    pub fn unregister_all_from_plugin(&mut self, plugin: &str) -> (r: Result<(), Error>)
        requires
            old(self).wf(),
        ensures
            r is Ok,
            final(self).wf(),
            final(self).commands() == not_from(old(self).commands(), plugin@),
            forall|a: Seq<char>| #[trigger]
                final(self).alias_target(a) == if alias_from(old(self).commands(), plugin@, a) {
                    None
                } else {
                    old(self).alias_target(a)
                },
    {
        let ghost all = self.commands();
        let mut i: usize = 0;
        let ghost mut done: int = 0;
        proof {
            assert(all.take(0) =~= Seq::<Command<H, P>>::empty());
            assert(all.skip(0) =~= all);
            assert(self.commands().take(0) =~= Seq::<Command<H, P>>::empty());
        }
        while i < self.commands.len()
            invariant
                all == old(self).commands(),
                old(self).wf(),
                aliases_distinct(self.aliases()),
                0 <= done <= all.len(),
                i <= self.commands().len(),
                self.commands().len() - i == all.len() - done,
                self.commands().take(i as int) == not_from(all.take(done), plugin@),
                self.commands().skip(i as int) == all.skip(done),
                forall|a: Seq<char>| #[trigger]
                    target_in(self.aliases(), a) == if alias_from(all.take(done), plugin@, a) {
                        None
                    } else {
                        target_in(old(self).aliases(), a)
                    },
            decreases self.commands().len() - i,
        {
            let ghost current = self.commands();
            let ghost known = self.aliases();
            proof {
                assert(current[i as int] == current.skip(i as int)[0]);
                assert(current[i as int] == all[done]);
                assert(all.take(done + 1).drop_last() =~= all.take(done));
                assert(all.take(done + 1).last() == all[done]);
                assert(all.skip(done).skip(1) =~= all.skip(done + 1));
                assert(current.skip(i as int).skip(1) =~= current.skip(i + 1));
            }
            if str_eq(self.commands[i].plugin.as_str(), plugin) {
                let command = self.commands.remove(i);
                self.remove_aliases(&command.aliases);
                proof {
                    assert(self.commands().take(i as int) =~= current.take(i as int));
                    assert(self.commands().skip(i as int) =~= current.skip(i + 1));
                    assert forall|a: Seq<char>| #[trigger]
                        target_in(self.aliases(), a) == if alias_from(all.take(done + 1), plugin@, a) {
                            None
                        } else {
                            target_in(old(self).aliases(), a)
                        } by {
                        Self::lemma_alias_from_step(all, done, plugin@, a);
                    }
                    done = done + 1;
                }
            } else {
                proof {
                    assert(self.commands().take(i + 1) =~= current.take(i as int).push(
                        current[i as int],
                    ));
                    assert forall|a: Seq<char>| #[trigger]
                        target_in(self.aliases(), a) == if alias_from(all.take(done + 1), plugin@, a) {
                            None
                        } else {
                            target_in(old(self).aliases(), a)
                        } by {
                        Self::lemma_alias_from_step(all, done, plugin@, a);
                    }
                    done = done + 1;
                }
                i = i + 1;
            }
        }
        proof {
            assert(self.commands().take(i as int) =~= self.commands());
            assert(all.take(done) =~= all);
            assert forall|a: int, b: int| 0 <= a < b < self.commands().len() implies (
            #[trigger] self.commands()[a]).name@ != (#[trigger] self.commands()[b]).name@ by {
                Self::lemma_not_from_order(all, plugin@, a, b);
            }
            assert forall|k: int| 0 <= k < self.commands().len() implies (
            #[trigger] self.commands()[k]).callable() by {
                Self::lemma_not_from_order(all, plugin@, k, k);
            }
        }
        Ok(())
    }

    /// An alias comes from the commands up to `done` just when it comes
    /// from those before `done` or from the command at `done`.
    proof fn lemma_alias_from_step(all: Seq<Command<H, P>>, done: int, plugin: Seq<char>, a: Seq<char>)
        requires
            0 <= done < all.len(),
        ensures
            alias_from(all.take(done + 1), plugin, a) <==> alias_from(all.take(done), plugin, a) || (
            all[done].plugin@ == plugin && names_of(all[done].aliases@).contains(a)),
    {
        let shorter = all.take(done);
        let longer = all.take(done + 1);
        if alias_from(shorter, plugin, a) {
            let j = choose|j: int|
                0 <= j < shorter.len() && (#[trigger] shorter[j]).plugin@ == plugin && names_of(
                    shorter[j].aliases@,
                ).contains(a);
            assert(longer[j] == shorter[j]);
        }
        if all[done].plugin@ == plugin && names_of(all[done].aliases@).contains(a) {
            assert(longer[done] == all[done]);
        }
        if alias_from(longer, plugin, a) {
            let j = choose|j: int|
                0 <= j < longer.len() && (#[trigger] longer[j]).plugin@ == plugin && names_of(
                    longer[j].aliases@,
                ).contains(a);
            if j < done {
                assert(shorter[j] == longer[j]);
            }
        }
    }

    /// The commands that stay are commands that were there, in the same order.
    proof fn lemma_not_from_order(all: Seq<Command<H, P>>, plugin: Seq<char>, a: int, b: int)
        requires
            0 <= a <= b < not_from(all, plugin).len(),
        ensures
            exists|x: int, y: int|
                0 <= x <= y < all.len() && all[x] == not_from(all, plugin)[a] && all[y] == not_from(
                    all,
                    plugin,
                )[b] && (a < b ==> x < y),
        decreases all.len(),
    {
        let rest = not_from(all.drop_last(), plugin);
        let n = all.len() - 1;
        if all.last().plugin@ != plugin && b == rest.len() {
            if a == b {
                assert(all[n] == not_from(all, plugin)[a]);
            } else {
                Self::lemma_not_from_order(all.drop_last(), plugin, a, a);
                let (x, y) = choose|x: int, y: int|
                    0 <= x <= y < all.drop_last().len() && all.drop_last()[x] == rest[a]
                        && all.drop_last()[y] == rest[a] && (a < a ==> x < y);
                assert(all[x] == not_from(all, plugin)[a] && all[n] == not_from(all, plugin)[b]);
            }
        } else {
            Self::lemma_not_from_order(all.drop_last(), plugin, a, b);
            let (x, y) = choose|x: int, y: int|
                0 <= x <= y < all.drop_last().len() && all.drop_last()[x] == rest[a]
                    && all.drop_last()[y] == rest[b] && (a < b ==> x < y);
            assert(all[x] == not_from(all, plugin)[a] && all[y] == not_from(all, plugin)[b]);
        }
    }

    /// Runs a command line: the line is split into the name of a command
    /// and its arguments, the name is taken for what it stands for, and the
    /// command of that name is run. A name that means no command is
    /// refused under the name that the line gave.
    pub fn execute(&self, command_line: &str) -> (r: Result<String, Error>)
        requires
            self.wf(),
        ensures
            match self.position(self.resolved(command_name_of(command_line@))) {
                None => is_command_error(r, Self::not_found_text(command_name_of(command_line@))),
                Some(i) => self.commands()[i].executed(arguments_of(command_line@), r),
            },
    {
        let (command_name, args) = parse_command_line(command_line);
        let actual = self.resolve(command_name.as_str());
        match self.find(actual.as_str()) {
            None => Err(Error::Command(join3("Command '", command_name.as_str(), "' not found"))),
            Some(i) => self.commands[i].execute(args.as_str()),
        }
    }

    /// The command that `name` means, if there is one.
    pub fn get_command(&self, name: &str) -> (r: Option<&Command<H, P>>)
        requires
            self.wf(),
        ensures
            match self.position(self.resolved(name@)) {
                Some(i) => r == Some(&self.commands()[i]),
                None => r is None,
            },
    {
        let actual = self.resolve(name);
        match self.find(actual.as_str()) {
            Some(i) => Some(&self.commands[i]),
            None => None,
        }
    }

    /// All commands, in the order in which they were registered.
    pub fn get_all_commands(&self) -> (r: &Vec<Command<H, P>>)
        ensures
            r@ == self.commands(),
    {
        &self.commands
    }

    /// The names of the commands that `plugin` registered, in order.
    pub fn get_commands_from_plugin(&self, plugin: &str) -> (r: Vec<String>)
        ensures
            names_of(r@) == Self::names_from(self.commands(), plugin@),
    {
        let mut out: Vec<String> = Vec::new();
        let mut i: usize = 0;
        assert(self.commands().take(0) =~= Seq::<Command<H, P>>::empty());
        assert(names_of(out@) =~= Seq::<Seq<char>>::empty());
        while i < self.commands.len()
            invariant
                i <= self.commands().len(),
                names_of(out@) == Self::names_from(self.commands().take(i as int), plugin@),
            decreases self.commands().len() - i,
        {
            assert(self.commands().take(i + 1).drop_last() =~= self.commands().take(i as int));
            assert(self.commands().take(i + 1).last() == self.commands()[i as int]);
            if str_eq(self.commands[i].plugin.as_str(), plugin) {
                let name = self.commands[i].name.clone();
                proof {
                    lemma_names_push(out@, name);
                }
                out.push(name);
            }
            i = i + 1;
        }
        assert(self.commands().take(i as int) =~= self.commands());
        out
    }

    /// The names of the commands of `commands` that `plugin` registered, in order.
    pub open spec fn names_from(commands: Seq<Command<H, P>>, plugin: Seq<char>) -> Seq<Seq<char>>
        decreases commands.len(),
    {
        if commands.len() == 0 {
            Seq::empty()
        } else if commands.last().plugin@ == plugin {
            Self::names_from(commands.drop_last(), plugin).push(commands.last().name@)
        } else {
            Self::names_from(commands.drop_last(), plugin)
        }
    }

    /// Whether `query` occurs in the name, the description or an alias of `command`.
    pub open spec fn mentions(command: Command<H, P>, query: Seq<char>) -> bool {
        has_part(command.name@, query) || has_part(command.description@, query) || exists|k: int|
            0 <= k < command.aliases@.len() && has_part((#[trigger] command.aliases@[k])@, query)
    }

    /// The names of the commands of `commands` that mention `query`, in order.
    pub open spec fn names_mentioning(commands: Seq<Command<H, P>>, query: Seq<char>) -> Seq<Seq<char>>
        decreases commands.len(),
    {
        if commands.len() == 0 {
            Seq::empty()
        } else if Self::mentions(commands.last(), query) {
            Self::names_mentioning(commands.drop_last(), query).push(commands.last().name@)
        } else {
            Self::names_mentioning(commands.drop_last(), query)
        }
    }

    /// The names of the commands whose name, description or aliases hold `query`.
    pub fn search_commands(&self, query: &str) -> (r: Vec<String>)
        ensures
            names_of(r@) == Self::names_mentioning(self.commands(), query@),
    {
        let mut out: Vec<String> = Vec::new();
        let mut i: usize = 0;
        assert(self.commands().take(0) =~= Seq::<Command<H, P>>::empty());
        assert(names_of(out@) =~= Seq::<Seq<char>>::empty());
        while i < self.commands.len()
            invariant
                i <= self.commands().len(),
                names_of(out@) == Self::names_mentioning(self.commands().take(i as int), query@),
            decreases self.commands().len() - i,
        {
            assert(self.commands().take(i + 1).drop_last() =~= self.commands().take(i as int));
            assert(self.commands().take(i + 1).last() == self.commands()[i as int]);
            let command = &self.commands[i];
            let mut found = contains_text(command.name.as_str(), query) || contains_text(
                command.description.as_str(),
                query,
            );
            let mut k: usize = 0;
            while k < command.aliases.len()
                invariant
                    k <= command.aliases@.len(),
                    found == (has_part(command.name@, query@) || has_part(command.description@, query@)
                        || exists|j: int|
                        0 <= j < k && has_part((#[trigger] command.aliases@[j])@, query@)),
                decreases command.aliases@.len() - k,
            {
                if contains_text(command.aliases[k].as_str(), query) {
                    assert(has_part(command.aliases@[k as int]@, query@));
                    found = true;
                }
                k = k + 1;
            }
            assert(found == Self::mentions(*command, query@));
            if found {
                let name = command.name.clone();
                proof {
                    lemma_names_push(out@, name);
                }
                out.push(name);
            }
            i = i + 1;
        }
        assert(self.commands().take(i as int) =~= self.commands());
        out
    }

    /// Counts that describe the registry.
    pub fn stats(&self) -> (r: CommandRegistryStats)
        ensures
            r.total_commands == self.commands().len(),
            r.total_aliases == self.aliases().len(),
            r.plugins == plugin_count(self.commands()),
    {
        let mut plugins: usize = 0;
        let mut i: usize = 0;
        assert(self.commands().take(0) =~= Seq::<Command<H, P>>::empty());
        while i < self.commands.len()
            invariant
                i <= self.commands().len(),
                plugins == plugin_count(self.commands().take(i as int)),
            decreases self.commands().len() - i,
        {
            let ghost before = self.commands().take(i as int);
            proof {
                assert(self.commands().take(i + 1).drop_last() =~= before);
                assert(self.commands().take(i + 1).last() == self.commands()[i as int]);
                lemma_plugin_count_bound(before);
            }
            let mut seen = false;
            let mut j: usize = 0;
            while j < i
                invariant
                    j <= i,
                    i < self.commands().len(),
                    before == self.commands().take(i as int),
                    seen == exists|k: int|
                        0 <= k < j && (#[trigger] before[k]).plugin@ == self.commands()[i as int].plugin@,
                decreases i - j,
            {
                if str_eq(self.commands[j].plugin.as_str(), self.commands[i].plugin.as_str()) {
                    assert(before[j as int].plugin@ == self.commands()[i as int].plugin@);
                    seen = true;
                }
                j = j + 1;
            }
            assert(seen == has_plugin(before, self.commands()[i as int].plugin@));
            if !seen {
                plugins = plugins + 1;
            }
            i = i + 1;
        }
        assert(self.commands().take(i as int) =~= self.commands());
        CommandRegistryStats {
            total_commands: self.commands.len(),
            total_aliases: self.aliases.len(),
            plugins,
        }
    }

    /// An argument parser that splits by the capture groups of `pattern`.
    /// Fails where the pattern does not compile.
    pub fn create_regex_parser(pattern: &str) -> (r: Result<ArgumentParser<P>, Error>)
        ensures
            r is Ok <==> regex_accepts(pattern@),
            r matches Ok(parser) ==> (parser matches ArgumentParser::Pattern(p) && p.pattern()
                == pattern@),
            r matches Err(e) ==> (e matches Error::Command(m) && exists|reason: Seq<char>|
                m@ == "Invalid regex pattern: "@ + reason),
    {
        match regex_new(pattern) {
            Ok(regex) => Ok(
                ArgumentParser::Pattern(PatternParser { regex, pattern: String::from_str(pattern) }),
            ),
            Err(reason) => Err(Error::Command(join2("Invalid regex pattern: ", reason.as_str()))),
        }
    }

    /// An argument parser that splits at spaces, with quotes and escapes.
    pub fn create_key_value_parser() -> (r: ArgumentParser<P>)
        ensures
            r is KeyValue,
    {
        ArgumentParser::KeyValue
    }
}

} // verus!
