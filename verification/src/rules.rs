use vstd::prelude::*;
use crate::config::RulesSettings;
use crate::error::DnsError;
use crate::text::{
    chars_of, ends_with, is_prefix, is_suffix, pieces_view, remove_char, same_chars, split,
    split_chars, starts_with, string_of, without,
};

verus! {

/// What a rule does with a query that it matches.
#[derive(Debug, Clone, Copy, PartialEq, Eq, Structural)]
pub enum RuleAction {
    /// The name is answered with NXDOMAIN.
    Deny,
    /// The name is answered with an address.
    Append,
}

/// How the key of a rule is compared with a name.
#[derive(Debug, Clone, Copy, PartialEq, Eq, Structural)]
pub enum RuleMode {
    Equal,
    StartsWith,
    EndsWith,
}

/// One rule: an action, and the names that it is for.
#[derive(Debug, PartialEq, Eq)]
pub struct Rule {
    pub action: RuleAction,
    pub mode: RuleMode,
    pub negate: bool,
    pub key: String,
    pub value: Option<String>,
}

/// What a rule holds, as plain values.
pub struct RuleView {
    pub action: RuleAction,
    pub mode: RuleMode,
    pub negate: bool,
    pub key: Seq<char>,
    pub value: Option<Seq<char>>,
}

impl View for Rule {
    type V = RuleView;

    open spec fn view(&self) -> RuleView {
        RuleView {
            action: self.action,
            mode: self.mode,
            negate: self.negate,
            key: self.key@,
            value: match self.value {
                Some(value) => Some(value@),
                None => None,
            },
        }
    }
}

impl Clone for Rule {
    fn clone(&self) -> (res: Rule)
        ensures
            res@ == self@,
    {
        Rule {
            action: self.action,
            mode: self.mode,
            negate: self.negate,
            key: self.key.clone(),
            value: match &self.value {
                Some(value) => Some(value.clone()),
                None => None,
            },
        }
    }
}

/// The rules of a list, as plain values.
pub open spec fn rules_view(rules: Seq<Rule>) -> Seq<RuleView> {
    Seq::new(rules.len(), |i: int| rules[i]@)
}

/// The action that a word stands for: `deny` or `apnd`.
pub open spec fn action_of(word: Seq<char>) -> Option<RuleAction> {
    if word == seq!['d', 'e', 'n', 'y'] {
        Some(RuleAction::Deny)
    } else if word == seq!['a', 'p', 'n', 'd'] {
        Some(RuleAction::Append)
    } else {
        None
    }
}

/// The mode that a pattern asks for: a star in front asks for names that end
/// with the key, a star at the end for names that start with it, and a star
/// in front wins over one at the end.
pub open spec fn mode_of(pattern: Seq<char>) -> RuleMode {
    if pattern.len() > 0 && pattern[0] == '*' {
        RuleMode::EndsWith
    } else if pattern.len() > 0 && pattern[pattern.len() - 1] == '*' {
        RuleMode::StartsWith
    } else {
        RuleMode::Equal
    }
}

/// The rule that a line spells. The words of the line are what lies between
/// its spaces: the action, the pattern, and, where there are four words or
/// more, the value as the fourth; the third is not looked at. One `!` in
/// front of the pattern negates the rule. The key is the rest of the pattern
/// without its stars.
pub open spec fn rule_of_line(line: Seq<char>) -> Result<RuleView, DnsError> {
    let words = split(line, ' ');
    if words.len() < 2 {
        Err(DnsError::BadRule)
    } else {
        match action_of(words[0]) {
            None => Err(DnsError::BadRule),
            Some(action) => {
                let negate = words[1].len() > 0 && words[1][0] == '!';
                let pattern = if negate {
                    words[1].skip(1)
                } else {
                    words[1]
                };
                Ok(
                    RuleView {
                        action,
                        mode: mode_of(pattern),
                        negate,
                        key: without(pattern, '*'),
                        value: if words.len() > 3 {
                            Some(words[3])
                        } else {
                            None
                        },
                    },
                )
            },
        }
    }
}

/// Whether a character is white space, as Unicode has it.
pub open spec fn is_whitespace(c: char) -> bool {
    ||| '\u{9}' <= c <= '\u{d}'
    ||| c == ' '
    ||| c == '\u{85}'
    ||| c == '\u{a0}'
    ||| c == '\u{1680}'
    ||| '\u{2000}' <= c <= '\u{200a}'
    ||| c == '\u{2028}'
    ||| c == '\u{2029}'
    ||| c == '\u{202f}'
    ||| c == '\u{205f}'
    ||| c == '\u{3000}'
}

/// Whether a line of a rule file holds no rule: it starts with `#`, or it is
/// made of white space only.
pub open spec fn is_ignored(line: Seq<char>) -> bool {
    (line.len() > 0 && line[0] == '#') || forall|i: int|
        0 <= i < line.len() ==> is_whitespace(#[trigger] line[i])
}

/// The rules that a list of lines spells, in order; the first line that is
/// not ignored and spells no rule makes the whole fail.
pub open spec fn rules_of_lines(lines: Seq<Seq<char>>) -> Result<Seq<RuleView>, DnsError>
    decreases lines.len(),
{
    if lines.len() == 0 {
        Ok(Seq::empty())
    } else {
        match rules_of_lines(lines.drop_last()) {
            Err(e) => Err(e),
            Ok(init) => if is_ignored(lines.last()) {
                Ok(init)
            } else {
                match rule_of_line(lines.last()) {
                    Err(e) => Err(e),
                    Ok(rule) => Ok(init.push(rule)),
                }
            },
        }
    }
}

/// The rules that the text of a rule file spells: one rule for each line
/// that is not ignored.
pub open spec fn rules_of_text(text: Seq<char>) -> Result<Seq<RuleView>, DnsError> {
    rules_of_lines(split(text, '\n'))
}

/// Whether a rule is for a name: the key is compared with the name as the
/// mode says, and a negated rule is for the names that the comparison
/// refuses.
pub open spec fn rule_matches(rule: RuleView, name: Seq<char>) -> bool {
    let hit = match rule.mode {
        RuleMode::Equal => name == rule.key,
        RuleMode::EndsWith => is_suffix(rule.key, name),
        RuleMode::StartsWith => is_prefix(rule.key, name),
    };
    hit != rule.negate
}

/// The first rule of `rules`, from the number `from` on, that is for `name`.
pub open spec fn first_match_from(rules: Seq<RuleView>, name: Seq<char>, from: int) -> Option<
    RuleView,
>
    decreases rules.len() - from,
{
    if from < 0 || from >= rules.len() {
        None
    } else if rule_matches(rules[from], name) {
        Some(rules[from])
    } else {
        first_match_from(rules, name, from + 1)
    }
}

/// The first rule of `rules` that is for `name`.
pub open spec fn first_match(rules: Seq<RuleView>, name: Seq<char>) -> Option<RuleView> {
    first_match_from(rules, name, 0)
}

pub(crate) fn is_word(word: &Vec<char>, c0: char, c1: char, c2: char, c3: char) -> (same: bool)
    ensures
        same == (word@ == seq![c0, c1, c2, c3]),
{
    if word.len() == 4 && word[0] == c0 && word[1] == c1 && word[2] == c2 && word[3] == c3 {
        assert(word@ =~= seq![c0, c1, c2, c3]);
        true
    } else {
        if word.len() == 4 {
            assert(seq![c0, c1, c2, c3][0] == c0);
            assert(seq![c0, c1, c2, c3][1] == c1);
            assert(seq![c0, c1, c2, c3][2] == c2);
            assert(seq![c0, c1, c2, c3][3] == c3);
        } else {
            assert(seq![c0, c1, c2, c3].len() == 4);
        }
        false
    }
}

fn rule_of_chars(chars: &Vec<char>) -> (res: Result<Rule, DnsError>)
    ensures
        match rule_of_line(chars@) {
            Ok(rule) => res is Ok && res->Ok_0@ == rule,
            Err(e) => res is Err && res->Err_0 == e,
        },
{
    let words = split_chars(chars, ' ');
    if words.len() < 2 {
        return Err(DnsError::BadRule);
    }
    assert(pieces_view(words@)[0] == words@[0]@);
    assert(pieces_view(words@)[1] == words@[1]@);
    let action = if is_word(&words[0], 'd', 'e', 'n', 'y') {
        RuleAction::Deny
    } else if is_word(&words[0], 'a', 'p', 'n', 'd') {
        RuleAction::Append
    } else {
        return Err(DnsError::BadRule);
    };
    let word = &words[1];
    let negate = word.len() > 0 && word[0] == '!';
    let from: usize = if negate {
        1
    } else {
        0
    };
    let ghost pattern = word@.skip(from as int);
    assert(!negate ==> pattern =~= word@);
    let mode = if word.len() > from && word[from] == '*' {
        RuleMode::EndsWith
    } else if word.len() > from && word[word.len() - 1] == '*' {
        RuleMode::StartsWith
    } else {
        RuleMode::Equal
    };
    let key_chars = remove_char(word, from, '*');
    let key = string_of(&key_chars, 0, key_chars.len());
    assert(key_chars@.subrange(0, key_chars@.len() as int) =~= key_chars@);
    let value = if words.len() > 3 {
        assert(pieces_view(words@)[3] == words@[3]@);
        let text = string_of(&words[3], 0, words[3].len());
        assert(words@[3]@.subrange(0, words@[3]@.len() as int) =~= words@[3]@);
        Some(text)
    } else {
        None
    };
    Ok(Rule { action, mode, negate, key, value })
}

/// Reads one rule from a line of a rule file; `BadRule` where the line has
/// fewer than two words or its first word is no action.
pub fn parse_rule(raw: &str) -> (res: Result<Rule, DnsError>)
    ensures
        match rule_of_line(raw@) {
            Ok(rule) => res is Ok && res->Ok_0@ == rule,
            Err(e) => res is Err && res->Err_0 == e,
        },
{
    let chars = chars_of(raw);
    rule_of_chars(&chars)
}

fn is_space(c: char) -> (res: bool)
    ensures
        res == is_whitespace(c),
{
    ('\u{9}' <= c && c <= '\u{d}') || c == ' ' || c == '\u{85}' || c == '\u{a0}' || c
        == '\u{1680}' || ('\u{2000}' <= c && c <= '\u{200a}') || c == '\u{2028}' || c
        == '\u{2029}' || c == '\u{202f}' || c == '\u{205f}' || c == '\u{3000}'
}

fn ignore_chars(line: &Vec<char>) -> (ignored: bool)
    ensures
        ignored == is_ignored(line@),
{
    if line.len() > 0 && line[0] == '#' {
        return true;
    }
    let mut i: usize = 0;
    while i < line.len()
        invariant
            i <= line@.len(),
            !(line@.len() > 0 && line@[0] == '#'),
            forall|k: int| 0 <= k < i ==> is_whitespace(#[trigger] line@[k]),
        decreases line@.len() - i,
    {
        if !is_space(line[i]) {
            return false;
        }
        i = i + 1;
    }
    true
}

/// Whether a line of a rule file is passed over: a comment or a blank line.
pub fn ignore_line(line: &str) -> (ignored: bool)
    ensures
        ignored == is_ignored(line@),
{
    let chars = chars_of(line);
    ignore_chars(&chars)
}

/// Reads the rules of a rule file from its text. The first line that is not
/// passed over and is no rule makes the whole fail with `BadRule`.
pub fn parse_rules(text: &str) -> (res: Result<Vec<Rule>, DnsError>)
    ensures
        match rules_of_text(text@) {
            Ok(rules) => res is Ok && rules_view(res->Ok_0@) == rules,
            Err(e) => res is Err && res->Err_0 == e,
        },
{
    let chars = chars_of(text);
    let lines = split_chars(&chars, '\n');
    let ghost all = pieces_view(lines@);
    let mut rules: Vec<Rule> = Vec::new();
    let mut i: usize = 0;
    assert(all.take(0) =~= Seq::empty());
    assert(rules_view(rules@) =~= Seq::empty());
    while i < lines.len()
        invariant
            i <= lines@.len(),
            all == pieces_view(lines@),
            all == split(text@, '\n'),
            rules_of_lines(all.take(i as int)) == Ok::<Seq<RuleView>, DnsError>(
                rules_view(rules@),
            ),
        decreases lines@.len() - i,
    {
        proof {
            assert(all.take(i + 1).drop_last() =~= all.take(i as int));
            assert(all.take(i + 1).last() == lines@[i as int]@);
        }
        if !ignore_chars(&lines[i]) {
            let ghost before = rules_view(rules@);
            match rule_of_chars(&lines[i]) {
                Err(e) => {
                    proof {
                        lemma_rules_error(all, i + 1);
                    }
                    return Err(e);
                },
                Ok(rule) => {
                    rules.push(rule);
                    assert(rules_view(rules@) =~= before.push(rule@));
                },
            }
        }
        i = i + 1;
    }
    assert(all.take(i as int) =~= all);
    Ok(rules)
}

/// Where the first `failed` lines spell no list of rules, the whole list of
/// lines fails in the same way.
proof fn lemma_rules_error(lines: Seq<Seq<char>>, failed: int)
    requires
        0 <= failed <= lines.len(),
        rules_of_lines(lines.take(failed)) is Err,
    ensures
        rules_of_lines(lines) == rules_of_lines(lines.take(failed)),
    decreases lines.len() - failed,
{
    if failed < lines.len() {
        assert(lines.take(failed + 1).drop_last() =~= lines.take(failed));
        lemma_rules_error(lines, failed + 1);
    } else {
        assert(lines.take(failed) =~= lines);
    }
}

/// The first rule of `rules` that is for the name `query`, if there is one.
pub fn match_rule(rules: &Vec<Rule>, query: &str) -> (res: Option<Rule>)
    ensures
        match res {
            Some(rule) => exists|i: int|
                0 <= i < rules@.len() && rule@ == (#[trigger] rules@[i])@ && rule_matches(
                    rules@[i]@,
                    query@,
                ) && forall|k: int| 0 <= k < i ==> !rule_matches((#[trigger] rules@[k])@, query@),
            None => forall|i: int|
                0 <= i < rules@.len() ==> !rule_matches((#[trigger] rules@[i])@, query@),
        },
        match first_match(rules_view(rules@), query@) {
            Some(rule) => res is Some && res->Some_0@ == rule,
            None => res is None,
        },
{
    let name = chars_of(query);
    let mut i: usize = 0;
    while i < rules.len()
        invariant
            i <= rules@.len(),
            name@ == query@,
            forall|k: int| 0 <= k < i ==> !rule_matches((#[trigger] rules@[k])@, query@),
            first_match(rules_view(rules@), query@) == first_match_from(
                rules_view(rules@),
                query@,
                i as int,
            ),
        decreases rules@.len() - i,
    {
        let rule = &rules[i];
        assert(rules_view(rules@)[i as int] == rules@[i as int]@);
        let key = chars_of(rule.key.as_str());
        let hit = match rule.mode {
            RuleMode::Equal => same_chars(&name, &key),
            RuleMode::EndsWith => ends_with(&name, &key),
            RuleMode::StartsWith => starts_with(&name, &key),
        };
        if hit != rule.negate {
            return Some(rule.clone());
        }
        i = i + 1;
    }
    None
}

/// A file that rules are read from: its name and its text.
#[derive(Debug)]
pub struct RuleFile {
    pub name: String,
    pub text: String,
}

/// What a rule file holds, as plain values.
pub struct RuleFileView {
    pub name: Seq<char>,
    pub text: Seq<char>,
}

impl View for RuleFile {
    type V = RuleFileView;

    open spec fn view(&self) -> RuleFileView {
        RuleFileView { name: self.name@, text: self.text@ }
    }
}

/// The files of a list, as plain values.
pub open spec fn files_view(files: Seq<RuleFile>) -> Seq<RuleFileView> {
    Seq::new(files.len(), |i: int| files[i]@)
}

/// How a source of rules is loaded.
#[derive(Debug, Clone, Copy, PartialEq, Eq, Structural)]
pub enum LoadKind {
    /// The path is one rule file.
    File,
    /// The path is a directory: every file below it whose name ends in
    /// `.rules` is a rule file.
    Dir,
    /// The source is passed over.
    Skip,
}

/// The way of loading that the word `load_as` of a source asks for.
pub open spec fn load_kind_of(load_as: Seq<char>) -> LoadKind {
    if load_as == seq!['f', 'i', 'l', 'e'] {
        LoadKind::File
    } else if load_as == seq!['d', 'i', 'r'] {
        LoadKind::Dir
    } else {
        LoadKind::Skip
    }
}

/// Whether a file of a rule directory is a rule file: its name ends in
/// `.rules`.
pub open spec fn is_rules_name(name: Seq<char>) -> bool {
    is_suffix(seq!['.', 'r', 'u', 'l', 'e', 's'], name)
}

/// The rules of a list of files, in the order of the files. With
/// `only_rules`, files whose names do not end in `.rules` are passed over.
pub open spec fn rules_of_files(files: Seq<RuleFileView>, only_rules: bool) -> Result<
    Seq<RuleView>,
    DnsError,
>
    decreases files.len(),
{
    if files.len() == 0 {
        Ok(Seq::empty())
    } else {
        match rules_of_files(files.drop_last(), only_rules) {
            Err(e) => Err(e),
            Ok(init) => if only_rules && !is_rules_name(files.last().name) {
                Ok(init)
            } else {
                match rules_of_text(files.last().text) {
                    Err(e) => Err(e),
                    Ok(rules) => Ok(init + rules),
                }
            },
        }
    }
}

/// The files that were loaded for the source with the number `i`.
pub open spec fn loaded_for(loaded: Seq<Vec<RuleFile>>, i: int) -> Seq<RuleFileView> {
    if 0 <= i < loaded.len() {
        files_view(loaded[i]@)
    } else {
        Seq::empty()
    }
}

/// The rules of the first `count` sources of a configuration, in order:
/// those of the one file of a source that is a file, those of the rule files
/// of a source that is a directory, none of any other source.
pub open spec fn rules_of_sources(
    sources: Seq<RulesSettings>,
    loaded: Seq<Vec<RuleFile>>,
    count: int,
) -> Result<Seq<RuleView>, DnsError>
    decreases count,
{
    if count <= 0 {
        Ok(Seq::empty())
    } else {
        match rules_of_sources(sources, loaded, count - 1) {
            Err(e) => Err(e),
            Ok(init) => match load_kind_of(sources[count - 1].load_as@) {
                LoadKind::Skip => Ok(init),
                kind => match rules_of_files(
                    loaded_for(loaded, count - 1),
                    kind == LoadKind::Dir,
                ) {
                    Err(e) => Err(e),
                    Ok(rules) => Ok(init + rules),
                },
            },
        }
    }
}

/// The way in which a source of rules is loaded.
pub fn load_kind(settings: &RulesSettings) -> (kind: LoadKind)
    ensures
        kind == load_kind_of(settings.load_as@),
{
    let word = chars_of(settings.load_as.as_str());
    if is_word(&word, 'f', 'i', 'l', 'e') {
        LoadKind::File
    } else if word.len() == 3 && word[0] == 'd' && word[1] == 'i' && word[2] == 'r' {
        assert(word@ =~= seq!['d', 'i', 'r']);
        LoadKind::Dir
    } else {
        if word.len() == 3 {
            assert(seq!['d', 'i', 'r'][0] == 'd');
            assert(seq!['d', 'i', 'r'][1] == 'i');
            assert(seq!['d', 'i', 'r'][2] == 'r');
        } else {
            assert(seq!['d', 'i', 'r'].len() == 3);
        }
        LoadKind::Skip
    }
}

/// Whether a file of a rule directory is read: its name ends in `.rules`.
pub fn is_rules_file(name: &str) -> (res: bool)
    ensures
        res == is_rules_name(name@),
{
    let chars = chars_of(name);
    let mut suffix: Vec<char> = Vec::new();
    suffix.push('.');
    suffix.push('r');
    suffix.push('u');
    suffix.push('l');
    suffix.push('e');
    suffix.push('s');
    assert(suffix@ =~= seq!['.', 'r', 'u', 'l', 'e', 's']);
    ends_with(&chars, &suffix)
}

fn parse_files(files: &Vec<RuleFile>, only_rules: bool) -> (res: Result<Vec<Rule>, DnsError>)
    ensures
        match rules_of_files(files_view(files@), only_rules) {
            Ok(rules) => res is Ok && rules_view(res->Ok_0@) == rules,
            Err(e) => res is Err && res->Err_0 == e,
        },
{
    let ghost all = files_view(files@);
    let mut rules: Vec<Rule> = Vec::new();
    let mut i: usize = 0;
    assert(all.take(0) =~= Seq::empty());
    assert(rules_view(rules@) =~= Seq::empty());
    while i < files.len()
        invariant
            i <= files@.len(),
            all == files_view(files@),
            rules_of_files(all.take(i as int), only_rules) == Ok::<Seq<RuleView>, DnsError>(
                rules_view(rules@),
            ),
        decreases files@.len() - i,
    {
        proof {
            assert(all.take(i + 1).drop_last() =~= all.take(i as int));
            assert(all.take(i + 1).last() == files@[i as int]@);
        }
        if !only_rules || is_rules_file(files[i].name.as_str()) {
            let ghost before = rules@;
            match parse_rules(files[i].text.as_str()) {
                Err(e) => {
                    proof {
                        lemma_files_error(all, only_rules, i + 1);
                    }
                    return Err(e);
                },
                Ok(more) => {
                    let mut more = more;
                    let ghost added = more@;
                    rules.append(&mut more);
                    assert(rules_view(rules@) =~= rules_view(before) + rules_view(added));
                },
            }
        }
        i = i + 1;
    }
    assert(all.take(i as int) =~= all);
    Ok(rules)
}

/// Where the first `failed` files spell no list of rules, the whole list of
/// files fails in the same way.
proof fn lemma_files_error(files: Seq<RuleFileView>, only_rules: bool, failed: int)
    requires
        0 <= failed <= files.len(),
        rules_of_files(files.take(failed), only_rules) is Err,
    ensures
        rules_of_files(files, only_rules) == rules_of_files(files.take(failed), only_rules),
    decreases files.len() - failed,
{
    if failed < files.len() {
        assert(files.take(failed + 1).drop_last() =~= files.take(failed));
        lemma_files_error(files, only_rules, failed + 1);
    } else {
        assert(files.take(failed) =~= files);
    }
}

/// Where the first `failed` sources spell no list of rules, more of them
/// fail in the same way.
proof fn lemma_sources_error(
    sources: Seq<RulesSettings>,
    loaded: Seq<Vec<RuleFile>>,
    failed: int,
    count: int,
)
    requires
        0 <= failed <= count,
        rules_of_sources(sources, loaded, failed) is Err,
    ensures
        rules_of_sources(sources, loaded, count) == rules_of_sources(sources, loaded, failed),
    decreases count,
{
    if failed < count {
        lemma_sources_error(sources, loaded, failed, count - 1);
    }
}

/// Reads the rules of the files of a rule directory, given with their names
/// and texts in the order in which the directory was walked. Only files
/// whose names end in `.rules` are read.
pub fn parse_rules_dir(files: &Vec<RuleFile>) -> (res: Result<Vec<Rule>, DnsError>)
    ensures
        match rules_of_files(files_view(files@), true) {
            Ok(rules) => res is Ok && rules_view(res->Ok_0@) == rules,
            Err(e) => res is Err && res->Err_0 == e,
        },
{
    parse_files(files, true)
}

/// Reads the rules of every source of a configuration, in order. `loaded`
/// holds, for each source, the files that were loaded for it: the one file
/// of a source that is a file, the files below a source that is a directory.
/// A source for which nothing was loaded gives no rules.
pub fn parse_rules_config(config: &Vec<RulesSettings>, loaded: &Vec<Vec<RuleFile>>) -> (res:
    Result<Vec<Rule>, DnsError>)
    ensures
        match rules_of_sources(config@, loaded@, config@.len() as int) {
            Ok(rules) => res is Ok && rules_view(res->Ok_0@) == rules,
            Err(e) => res is Err && res->Err_0 == e,
        },
{
    let mut rules: Vec<Rule> = Vec::new();
    let mut i: usize = 0;
    assert(rules_view(rules@) =~= Seq::empty());
    while i < config.len()
        invariant
            i <= config@.len(),
            rules_of_sources(config@, loaded@, i as int) == Ok::<Seq<RuleView>, DnsError>(
                rules_view(rules@),
            ),
        decreases config@.len() - i,
    {
        let kind = load_kind(&config[i]);
        match kind {
            LoadKind::Skip => {},
            _ => {
                let ghost before = rules@;
                let parsed = if i < loaded.len() {
                    parse_files(&loaded[i], kind == LoadKind::Dir)
                } else {
                    Ok(Vec::new())
                };
                match parsed {
                    Err(e) => {
                        proof {
                            lemma_sources_error(config@, loaded@, i + 1, config@.len() as int);
                        }
                        return Err(e);
                    },
                    Ok(more) => {
                        let mut more = more;
                        let ghost added = more@;
                        assert(rules_view(added) == rules_of_files(
                            loaded_for(loaded@, i as int),
                            kind == LoadKind::Dir,
                        )->Ok_0) by {
                            if i >= loaded@.len() {
                                assert(rules_view(added) =~= Seq::empty());
                            }
                        }
                        rules.append(&mut more);
                        assert(rules_view(rules@) =~= rules_view(before) + rules_view(added));
                    },
                }
            },
        }
        i = i + 1;
    }
    Ok(rules)
}

} // verus!
