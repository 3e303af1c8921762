//! The token template and the search-and-replace rules built on it.

use vstd::prelude::*;
use crate::config::Replace;
use crate::error::{ValidationError, ValidationText};
use crate::ops::diff::{new_header, old_header, unified_diff, unified_diff_text};
use crate::ops::order::{insert_sorted, inserted, lemma_inserted, sorted};
use crate::ops::text::{
    contains, occurs, replace_all, same_text, slot_text, substitute, texts,
};

verus! {

/// The values that the tokens of a template stand for. A slot left at `None`
/// leaves its token in the text.
#[derive(Clone, Copy, Debug)]
pub struct Template<'a> {
    pub prev_version: Option<&'a str>,
    pub prev_metadata: Option<&'a str>,
    pub version: Option<&'a str>,
    pub metadata: Option<&'a str>,
    pub crate_name: Option<&'a str>,
    pub date: Option<&'a str>,
    pub prefix: Option<&'a str>,
    pub tag_name: Option<&'a str>,
}

/// The slots of a [`Template`] as texts.
pub struct TemplateText {
    pub prev_version: Option<Seq<char>>,
    pub prev_metadata: Option<Seq<char>>,
    pub version: Option<Seq<char>>,
    pub metadata: Option<Seq<char>>,
    pub crate_name: Option<Seq<char>>,
    pub date: Option<Seq<char>>,
    pub prefix: Option<Seq<char>>,
    pub tag_name: Option<Seq<char>>,
}

/// What one slot does to a text: a bound slot replaces its token everywhere,
/// an unbound one changes nothing.
pub open spec fn bind(text: Seq<char>, token: Seq<char>, value: Option<Seq<char>>) -> Seq<char> {
    match value {
        Some(v) => substitute(text, token, v),
        None => text,
    }
}

/// The token that a slot leaves behind: the token itself where the slot is
/// unbound and the text holds it, nothing otherwise.
pub open spec fn leftover(text: Seq<char>, token: Seq<char>, value: Option<Seq<char>>) -> Seq<
    Seq<char>,
> {
    if value is None && occurs(text, token) {
        seq![token]
    } else {
        Seq::empty()
    }
}

impl TemplateText {
    /// A template with no slot bound.
    pub open spec fn unbound() -> TemplateText {
        TemplateText {
            prev_version: None,
            prev_metadata: None,
            version: None,
            metadata: None,
            crate_name: None,
            date: None,
            prefix: None,
            tag_name: None,
        }
    }

    /// The text after the first `n` slots were applied to `input`, each to
    /// the outcome of the one before.
    pub open spec fn after(self, n: nat, input: Seq<char>) -> Seq<char>
        decreases n,
    {
        if n == 0 {
            input
        } else {
            let s = self.after((n - 1) as nat, input);
            if n == 1 {
                bind(s, "{{prev_version}}"@, self.prev_version)
            } else if n == 2 {
                bind(s, "{{prev_metadata}}"@, self.prev_metadata)
            } else if n == 3 {
                bind(s, "{{version}}"@, self.version)
            } else if n == 4 {
                bind(s, "{{metadata}}"@, self.metadata)
            } else if n == 5 {
                bind(s, "{{crate_name}}"@, self.crate_name)
            } else if n == 6 {
                bind(s, "{{date}}"@, self.date)
            } else if n == 7 {
                bind(s, "{{prefix}}"@, self.prefix)
            } else if n == 8 {
                bind(s, "{{tag_name}}"@, self.tag_name)
            } else {
                s
            }
        }
    }

    /// The rendered text: all eight slots applied in order.
    pub open spec fn render(self, input: Seq<char>) -> Seq<char> {
        self.after(8, input)
    }

    /// The tokens that rendering leaves in the text for want of a value, in
    /// the order of their slots. Each slot is judged on the text as the slots
    /// before it left it.
    pub open spec fn unrendered(self, input: Seq<char>) -> Seq<Seq<char>> {
        leftover(self.after(0, input), "{{prev_version}}"@, self.prev_version) + leftover(
            self.after(1, input),
            "{{prev_metadata}}"@,
            self.prev_metadata,
        ) + leftover(self.after(2, input), "{{version}}"@, self.version) + leftover(
            self.after(3, input),
            "{{metadata}}"@,
            self.metadata,
        ) + leftover(self.after(4, input), "{{crate_name}}"@, self.crate_name) + leftover(
            self.after(5, input),
            "{{date}}"@,
            self.date,
        ) + leftover(self.after(6, input), "{{prefix}}"@, self.prefix) + leftover(
            self.after(7, input),
            "{{tag_name}}"@,
            self.tag_name,
        )
    }
}

impl<'a> View for Template<'a> {
    type V = TemplateText;

    open spec fn view(&self) -> TemplateText {
        TemplateText {
            prev_version: slot_text(self.prev_version),
            prev_metadata: slot_text(self.prev_metadata),
            version: slot_text(self.version),
            metadata: slot_text(self.metadata),
            crate_name: slot_text(self.crate_name),
            date: slot_text(self.date),
            prefix: slot_text(self.prefix),
            tag_name: slot_text(self.tag_name),
        }
    }
}

impl<'a> Default for Template<'a> {
    fn default() -> (template: Self)
        ensures
            template@ == TemplateText::unbound(),
    {
        Template {
            prev_version: None,
            prev_metadata: None,
            version: None,
            metadata: None,
            crate_name: None,
            date: None,
            prefix: None,
            tag_name: None,
        }
    }
}

impl<'a> Template<'a> {
    /// Substitutes every bound token in `input`.
    pub fn render(&self, input: &str) -> (out: String)
        ensures
            out@ == self@.render(input@),
    {
        proof {
            reveal_with_fuel(TemplateText::after, 9);
        }
        let s = input.to_owned();
        let s = render_var(s, "{{prev_version}}", self.prev_version);
        let s = render_var(s, "{{prev_metadata}}", self.prev_metadata);
        let s = render_var(s, "{{version}}", self.version);
        let s = render_var(s, "{{metadata}}", self.metadata);
        let s = render_var(s, "{{crate_name}}", self.crate_name);
        let s = render_var(s, "{{date}}", self.date);
        let s = render_var(s, "{{prefix}}", self.prefix);
        render_var(s, "{{tag_name}}", self.tag_name)
    }

    /// Lists the tokens that [`Template::render`] leaves in `input` because
    /// their slot is unbound. Rendering goes on regardless; the list is for
    /// the caller to warn about.
    pub fn unrendered(&self, input: &str) -> (tokens: Vec<String>)
        ensures
            texts(tokens@) == self@.unrendered(input@),
    {
        proof {
            reveal_with_fuel(TemplateText::after, 9);
        }
        let mut tokens: Vec<String> = Vec::new();
        let s = input.to_owned();
        note_unrendered(&mut tokens, s.as_str(), "{{prev_version}}", self.prev_version);
        let s = render_var(s, "{{prev_version}}", self.prev_version);
        note_unrendered(&mut tokens, s.as_str(), "{{prev_metadata}}", self.prev_metadata);
        let s = render_var(s, "{{prev_metadata}}", self.prev_metadata);
        note_unrendered(&mut tokens, s.as_str(), "{{version}}", self.version);
        let s = render_var(s, "{{version}}", self.version);
        note_unrendered(&mut tokens, s.as_str(), "{{metadata}}", self.metadata);
        let s = render_var(s, "{{metadata}}", self.metadata);
        note_unrendered(&mut tokens, s.as_str(), "{{crate_name}}", self.crate_name);
        let s = render_var(s, "{{crate_name}}", self.crate_name);
        note_unrendered(&mut tokens, s.as_str(), "{{date}}", self.date);
        let s = render_var(s, "{{date}}", self.date);
        note_unrendered(&mut tokens, s.as_str(), "{{prefix}}", self.prefix);
        let s = render_var(s, "{{prefix}}", self.prefix);
        note_unrendered(&mut tokens, s.as_str(), "{{tag_name}}", self.tag_name);
        tokens
    }
}

/// Applies one slot to a text.
pub fn render_var(template: String, var_name: &str, var_value: Option<&str>) -> (out: String)
    ensures
        out@ == bind(template@, var_name@, slot_text(var_value)),
{
    match var_value {
        Some(value) => replace_all(template.as_str(), var_name, value),
        None => template,
    }
}

/// Appends the token to `tokens` when its slot is unbound and `text` holds it.
fn note_unrendered(tokens: &mut Vec<String>, text: &str, var_name: &str, var_value: Option<&str>)
    ensures
        texts(final(tokens)@) == texts(old(tokens)@) + leftover(
            text@,
            var_name@,
            slot_text(var_value),
        ),
{
    if var_value.is_none() && contains(text, var_name) {
        tokens.push(var_name.to_owned());
    }
    assert(texts(tokens@) =~= texts(old(tokens)@) + leftover(
        text@,
        var_name@,
        slot_text(var_value),
    ));
}

/// The error of `regex` for a pattern it refuses.
#[verifier::external_type_specification]
#[verifier::external_body]
pub struct ExRegexError(regex::Error);

/// The number of non-overlapping matches that the regular expression
/// `pattern`, compiled in multi-line mode, has in `text`; `None` where
/// `regex` refuses the pattern.
pub uninterp spec fn regex_match_count(pattern: Seq<char>, text: Seq<char>) -> Option<usize>;

/// `text` with every non-overlapping match of `pattern`, compiled in
/// multi-line mode, replaced by what `replacement` expands to; `None` where
/// `regex` refuses the pattern.
pub uninterp spec fn regex_replace_all(
    pattern: Seq<char>,
    text: Seq<char>,
    replacement: Seq<char>,
) -> Option<Seq<char>>;

/// Calls `to_string` on an error of `regex`, which writes out what the
/// engine objects to.
#[verifier::external_body]
fn describe(error: &regex::Error) -> (reason: String) {
    error.to_string()
}

/// Compiles the pattern with `regex::RegexBuilder`, `multi_line` switched
/// on, and counts what `Regex::find_iter` yields on the text. The error is
/// the one `build` returns for a pattern it refuses.
#[verifier::external_body]
fn count_matches(pattern: &str, text: &str) -> (found: Result<usize, regex::Error>)
    ensures
        match found {
            Ok(n) => regex_match_count(pattern@, text@) == Some(n),
            Err(_) => regex_match_count(pattern@, text@) is None,
        },
{
    Ok(regex::RegexBuilder::new(pattern).multi_line(true).build()?.find_iter(text).count())
}

/// Compiles the pattern as [`count_matches`] does and calls
/// `Regex::replace_all` with the replacement as a string, so that `$`
/// references in it are expanded as `regex` documents.
#[verifier::external_body]
fn replace_matches(pattern: &str, text: &str, replacement: &str) -> (replaced: Result<
    String,
    regex::Error,
>)
    ensures
        match replaced {
            Ok(out) => regex_replace_all(pattern@, text@, replacement@) == Some(out@),
            Err(_) => regex_replace_all(pattern@, text@, replacement@) is None,
        },
{
    Ok(
        regex::RegexBuilder::new(pattern).multi_line(true).build()?.replace_all(
            text,
            replacement,
        ).into_owned(),
    )
}

/// The fault in finding `found` matches for `rule`, if it is one: fewer than
/// the rule's least, or more than its most.
pub open spec fn occurrence_fault(rule: Replace, found: usize) -> Option<ValidationText> {
    if found < rule.least() {
        Some(
            ValidationText::TooFew {
                pattern: rule.search@,
                file: rule.file@,
                expected: rule.least(),
                found,
            },
        )
    } else if rule.most() < found {
        Some(
            ValidationText::TooMany {
                pattern: rule.search@,
                file: rule.file@,
                expected: rule.most(),
                found,
            },
        )
    } else {
        None
    }
}

/// Holds the number of matches found against the bounds of a rule.
pub fn check_occurrences(rule: &Replace, found: usize) -> (done: Result<(), ValidationError>)
    ensures
        match occurrence_fault(*rule, found) {
            Some(fault) => done is Err && done->Err_0@ == fault,
            None => done is Ok,
        },
{
    let (least, most) = rule.bounds();
    if found < least {
        Err(
            ValidationError::TooFew {
                pattern: rule.search.clone(),
                file: rule.file.clone(),
                expected: least,
                found,
            },
        )
    } else if most < found {
        Err(
            ValidationError::TooMany {
                pattern: rule.search.clone(),
                file: rule.file.clone(),
                expected: most,
                found,
            },
        )
    } else {
        Ok(())
    }
}

/// What one rule makes of a text. A rule that is not for pre-releases leaves
/// the text alone while a pre-release is planned. Otherwise the matches are
/// counted first and held against the rule's bounds; only then is each
/// replaced by the rendered replacement.
pub open spec fn apply_rule(
    rule: Replace,
    template: TemplateText,
    text: Seq<char>,
    prerelease: bool,
) -> Result<Seq<char>, ValidationText> {
    let refused = ValidationText::PatternRefused { pattern: rule.search@, file: rule.file@ };
    if prerelease && !rule.prerelease {
        Ok(text)
    } else {
        match regex_match_count(rule.search@, text) {
            None => Err(refused),
            Some(found) => match occurrence_fault(rule, found) {
                Some(fault) => Err(fault),
                None => match regex_replace_all(rule.search@, text, template.render(rule.replace@)) {
                    Some(out) => Ok(out),
                    None => Err(refused),
                },
            },
        }
    }
}

/// What the rules for `file` make of a text: they are applied in the order
/// they stand in, each to the outcome of the one before, and the first fault
/// ends it. Rules for other files are passed over.
pub open spec fn apply_rules(
    rules: Seq<Replace>,
    file: Seq<char>,
    template: TemplateText,
    text: Seq<char>,
    prerelease: bool,
) -> Result<Seq<char>, ValidationText>
    decreases rules.len(),
{
    if rules.len() == 0 {
        Ok(text)
    } else {
        match apply_rules(rules.drop_last(), file, template, text, prerelease) {
            Err(fault) => Err(fault),
            Ok(so_far) => if rules.last().file@ == file {
                apply_rule(rules.last(), template, so_far, prerelease)
            } else {
                Ok(so_far)
            },
        }
    }
}

/// Applies one rule to a text.
pub fn replace_once(rule: &Replace, template: &Template<'_>, text: String, prerelease: bool) -> (done:
    Result<String, ValidationError>)
    ensures
        match apply_rule(*rule, template@, text@, prerelease) {
            Ok(out) => done is Ok && done->Ok_0@ == out,
            Err(fault) => done is Err && done->Err_0@ == fault,
        },
{
    if prerelease && !rule.prerelease {
        return Ok(text);
    }
    let found = match count_matches(rule.search.as_str(), text.as_str()) {
        Ok(n) => n,
        Err(refusal) => {
            return Err(
                ValidationError::PatternRefused {
                    pattern: rule.search.clone(),
                    file: rule.file.clone(),
                    reason: describe(&refusal),
                },
            );
        },
    };
    match check_occurrences(rule, found) {
        Err(fault) => {
            return Err(fault);
        },
        Ok(_) => {},
    }
    let replacer = template.render(rule.replace.as_str());
    match replace_matches(rule.search.as_str(), text.as_str(), replacer.as_str()) {
        Ok(out) => Ok(out),
        Err(refusal) => Err(
            ValidationError::PatternRefused {
                pattern: rule.search.clone(),
                file: rule.file.clone(),
                reason: describe(&refusal),
            },
        ),
    }
}

/// Applies the rules for `file` to its contents.
pub fn replace_in_file(
    rules: &Vec<Replace>,
    file: &str,
    template: &Template<'_>,
    data: &str,
    prerelease: bool,
) -> (done: Result<String, ValidationError>)
    ensures
        match apply_rules(rules@, file@, template@, data@, prerelease) {
            Ok(out) => done is Ok && done->Ok_0@ == out,
            Err(fault) => done is Err && done->Err_0@ == fault,
        },
{
    let mut replaced = data.to_owned();
    let mut i: usize = 0;
    while i < rules.len()
        invariant
            i <= rules@.len(),
            apply_rules(rules@.take(i as int), file@, template@, data@, prerelease) == Ok::<
                Seq<char>,
                ValidationText,
            >(replaced@),
        decreases rules@.len() - i,
    {
        proof {
            assert(rules@.take(i + 1).drop_last() =~= rules@.take(i as int));
            assert(rules@.take(i + 1).last() == rules@[i as int]);
        }
        if same_text(rules[i].file.as_str(), file) {
            match replace_once(&rules[i], template, replaced, prerelease) {
                Ok(out) => {
                    replaced = out;
                },
                Err(fault) => {
                    proof {
                        lemma_fault_stays(rules@, i + 1, file@, template@, data@, prerelease);
                    }
                    return Err(fault);
                },
            }
        }
        i += 1;
    }
    assert(rules@.take(i as int) =~= rules@);
    Ok(replaced)
}

/// A fault among the first `n` rules is the fault of the whole list.
pub proof fn lemma_fault_stays(
    rules: Seq<Replace>,
    n: int,
    file: Seq<char>,
    template: TemplateText,
    text: Seq<char>,
    prerelease: bool,
)
    requires
        0 <= n <= rules.len(),
        apply_rules(rules.take(n), file, template, text, prerelease) is Err,
    ensures
        apply_rules(rules, file, template, text, prerelease) == apply_rules(
            rules.take(n),
            file,
            template,
            text,
            prerelease,
        ),
    decreases rules.len(),
{
    if n == rules.len() {
        assert(rules.take(n) =~= rules);
    } else {
        assert(rules.drop_last().take(n) =~= rules.take(n));
        lemma_fault_stays(rules.drop_last(), n, file, template, text, prerelease);
    }
}

/// The files that the rules name, each once, in the order in which they are
/// worked on: sorted by path, component by component, whatever the order of
/// the rules.
pub open spec fn sorted_files(rules: Seq<Replace>) -> Seq<Seq<char>>
    decreases rules.len(),
{
    if rules.len() == 0 {
        Seq::empty()
    } else {
        inserted(sorted_files(rules.drop_last()), rules.last().file@)
    }
}

/// The files of the rules are sorted without repetition, and they are the
/// files that the rules name, no more and no less.
pub proof fn lemma_sorted_files(rules: Seq<Replace>)
    ensures
        sorted(sorted_files(rules)),
        forall|i: int| 0 <= i < rules.len() ==> sorted_files(rules).contains(#[trigger] rules[i].file@),
        forall|f: Seq<char>| #[trigger]
            sorted_files(rules).contains(f) ==> exists|i: int|
                0 <= i < rules.len() && #[trigger] rules[i].file@ == f,
    decreases rules.len(),
{
    if rules.len() > 0 {
        let front = rules.drop_last();
        lemma_sorted_files(front);
        lemma_inserted(sorted_files(front), rules.last().file@);
        assert forall|i: int| 0 <= i < rules.len() implies sorted_files(rules).contains(
            #[trigger] rules[i].file@,
        ) by {
            if i < rules.len() - 1 {
                assert(front[i] == rules[i]);
                assert(sorted_files(front).contains(front[i].file@));
            }
        }
        assert forall|f: Seq<char>| #[trigger] sorted_files(rules).contains(f) implies exists|i: int|
            0 <= i < rules.len() && #[trigger] rules[i].file@ == f by {
            if f == rules.last().file@ {
                assert(rules[rules.len() - 1].file@ == f);
            } else {
                assert(sorted_files(front).contains(f));
                let i = choose|i: int| 0 <= i < front.len() && #[trigger] front[i].file@ == f;
                assert(rules[i].file@ == f);
            }
        }
    }
}

/// Lists the files that the rules name, in the order in which
/// [`do_file_replacements`] works on them.
pub fn replacement_files(rules: &Vec<Replace>) -> (files: Vec<String>)
    ensures
        texts(files@) == sorted_files(rules@),
{
    let mut files: Vec<String> = Vec::new();
    let mut i: usize = 0;
    assert(texts(files@) =~= sorted_files(rules@.take(0)));
    while i < rules.len()
        invariant
            i <= rules@.len(),
            texts(files@) == sorted_files(rules@.take(i as int)),
        decreases rules@.len() - i,
    {
        proof {
            assert(rules@.take(i + 1).drop_last() =~= rules@.take(i as int));
            assert(rules@.take(i + 1).last() == rules@[i as int]);
        }
        insert_sorted(&mut files, rules[i].file.as_str());
        i += 1;
    }
    assert(rules@.take(i as int) =~= rules@);
    files
}

/// A file as it was read: its name as the rules give it, and its contents,
/// or `None` where there is no such file.
#[derive(Debug)]
pub struct FileSource {
    pub file: String,
    pub content: Option<String>,
}

/// What is to be done about a file whose contents the rules changed.
#[derive(Debug)]
pub enum FileChange {
    /// The file is to be overwritten with `content`.
    Write { file: String, content: String },
    /// Nothing is written; `message` is shown under the title `Replacing`.
    Preview { file: String, message: String },
}

/// A [`FileChange`] with its texts as sequences of characters.
pub enum FileChangeText {
    Write { file: Seq<char>, content: Seq<char> },
    Preview { file: Seq<char>, message: Seq<char> },
}

impl View for FileChange {
    type V = FileChangeText;

    open spec fn view(&self) -> FileChangeText {
        match self {
            FileChange::Write { file, content } => FileChangeText::Write {
                file: file@,
                content: content@,
            },
            FileChange::Preview { file, message } => FileChangeText::Preview {
                file: file@,
                message: message@,
            },
        }
    }
}

/// The changes of a list as texts.
pub open spec fn change_texts(changes: Seq<FileChange>) -> Seq<FileChangeText> {
    Seq::new(changes.len(), |i: int| changes[i]@)
}

/// The contents of the first source called `file`; `None` where there is no
/// such source or it says that the file is missing.
pub open spec fn source_of(sources: Seq<FileSource>, file: Seq<char>) -> Option<Seq<char>>
    decreases sources.len(),
{
    if sources.len() == 0 {
        None
    } else if sources[0].file@ == file {
        match sources[0].content {
            Some(content) => Some(content@),
            None => None,
        }
    } else {
        source_of(sources.drop_first(), file)
    }
}

/// The message that previews a change: the file, and below it the diff where
/// one is asked for.
pub open spec fn preview_text(file: Seq<char>, current: Seq<char>, replaced: Seq<char>, noisy: bool) -> Seq<
    char,
> {
    if noisy {
        "in "@ + file + "\n"@ + unified_diff_text(
            current,
            replaced,
            old_header(file),
            new_header(file, "replaced"@),
        )
    } else {
        "in "@ + file
    }
}

/// What is to be done about a file once its rules are applied: nothing where
/// the contents came out as they were, a preview in a dry run, a write
/// otherwise.
pub open spec fn change_for(
    file: Seq<char>,
    current: Seq<char>,
    replaced: Seq<char>,
    noisy: bool,
    dry_run: bool,
) -> Option<FileChangeText> {
    if replaced == current {
        None
    } else if dry_run {
        Some(
            FileChangeText::Preview { file, message: preview_text(file, current, replaced, noisy) },
        )
    } else {
        Some(FileChangeText::Write { file, content: replaced })
    }
}

/// What becomes of one file: a fault where it is missing or one of its rules
/// fails, else the change to make, if any.
pub open spec fn file_outcome(
    rules: Seq<Replace>,
    template: TemplateText,
    sources: Seq<FileSource>,
    file: Seq<char>,
    prerelease: bool,
    noisy: bool,
    dry_run: bool,
) -> Result<Option<FileChangeText>, ValidationText> {
    match source_of(sources, file) {
        None => Err(ValidationText::MissingFile { file }),
        Some(current) => match apply_rules(rules, file, template, current, prerelease) {
            Err(fault) => Err(fault),
            Ok(replaced) => Ok(change_for(file, current, replaced, noisy, dry_run)),
        },
    }
}

/// What becomes of the files in `files`, taken in order: the changes up to
/// the first fault, and that fault. No file after a fault is looked at.
pub open spec fn outcome_of(
    rules: Seq<Replace>,
    template: TemplateText,
    sources: Seq<FileSource>,
    files: Seq<Seq<char>>,
    prerelease: bool,
    noisy: bool,
    dry_run: bool,
) -> (Seq<FileChangeText>, Option<ValidationText>)
    decreases files.len(),
{
    if files.len() == 0 {
        (Seq::empty(), None)
    } else {
        let (changes, fault) = outcome_of(
            rules,
            template,
            sources,
            files.drop_last(),
            prerelease,
            noisy,
            dry_run,
        );
        if fault is Some {
            (changes, fault)
        } else {
            match file_outcome(rules, template, sources, files.last(), prerelease, noisy, dry_run) {
                Err(fault) => (changes, Some(fault)),
                Ok(None) => (changes, None),
                Ok(Some(change)) => (changes.push(change), None),
            }
        }
    }
}

/// Looks a file up among the sources.
fn find_source<'a>(sources: &'a Vec<FileSource>, file: &str) -> (content: Option<&'a str>)
    ensures
        slot_text(content) == source_of(sources@, file@),
{
    let mut i: usize = 0;
    assert(sources@.skip(0) =~= sources@);
    while i < sources.len()
        invariant
            i <= sources@.len(),
            source_of(sources@, file@) == source_of(sources@.skip(i as int), file@),
        decreases sources@.len() - i,
    {
        proof {
            assert(sources@.skip(i as int).drop_first() =~= sources@.skip(i + 1));
            assert(sources@.skip(i as int)[0] == sources@[i as int]);
        }
        if same_text(sources[i].file.as_str(), file) {
            return match &sources[i].content {
                Some(content) => Some(content.as_str()),
                None => None,
            };
        }
        i += 1;
    }
    None
}

/// Decides what is to be done about a file whose rules came out with
/// `replaced`.
pub fn decide_change(file: &str, current: &str, replaced: String, noisy: bool, dry_run: bool) -> (change:
    Option<FileChange>)
    ensures
        match change {
            Some(c) => change_for(file@, current@, replaced@, noisy, dry_run) == Some(c@),
            None => change_for(file@, current@, replaced@, noisy, dry_run) is None,
        },
{
    if same_text(current, replaced.as_str()) {
        None
    } else if dry_run {
        let mut message = "in ".to_owned();
        message.append(file);
        if noisy {
            message.append("\n");
            message.append(unified_diff(current, replaced.as_str(), file, "replaced").as_str());
        }
        Some(FileChange::Preview { file: file.to_owned(), message })
    } else {
        Some(FileChange::Write { file: file.to_owned(), content: replaced })
    }
}

/// Applies the rules to the files they name.
///
/// The files are taken sorted by path. Each must be among `sources` with its
/// contents; its rules are applied to them in the order the rules stand in.
/// Where the contents come out changed, a dry run adds a preview to the
/// changes and any other run a write; where they come out as they were,
/// nothing is added. The first fault ends the work: the changes decided
/// until then are handed back with it, and nothing is decided for the file
/// at fault or any later one.
pub fn do_file_replacements(
    replace_config: &Vec<Replace>,
    template: &Template<'_>,
    sources: &Vec<FileSource>,
    prerelease: bool,
    noisy: bool,
    dry_run: bool,
) -> (done: (Vec<FileChange>, Result<bool, ValidationError>))
    ensures
        change_texts(done.0@) == outcome_of(
            replace_config@,
            template@,
            sources@,
            sorted_files(replace_config@),
            prerelease,
            noisy,
            dry_run,
        ).0,
        match outcome_of(
            replace_config@,
            template@,
            sources@,
            sorted_files(replace_config@),
            prerelease,
            noisy,
            dry_run,
        ).1 {
            Some(fault) => done.1 is Err && done.1->Err_0@ == fault,
            None => done.1 == Ok::<bool, ValidationError>(true),
        },
        dry_run ==> forall|i: int| 0 <= i < done.0@.len() ==> #[trigger] done.0@[i] is Preview,
        !dry_run ==> forall|i: int| 0 <= i < done.0@.len() ==> #[trigger] done.0@[i] is Write,
{
    let files = replacement_files(replace_config);
    let ghost names = texts(files@);
    let mut changes: Vec<FileChange> = Vec::new();
    let mut i: usize = 0;
    assert(change_texts(changes@) =~= Seq::empty());
    while i < files.len()
        invariant
            i <= files@.len(),
            names == texts(files@),
            names == sorted_files(replace_config@),
            outcome_of(
                replace_config@,
                template@,
                sources@,
                names.take(i as int),
                prerelease,
                noisy,
                dry_run,
            ) == (change_texts(changes@), None::<ValidationText>),
            dry_run ==> forall|j: int| 0 <= j < changes@.len() ==> #[trigger] changes@[j] is Preview,
            !dry_run ==> forall|j: int| 0 <= j < changes@.len() ==> #[trigger] changes@[j] is Write,
        decreases files@.len() - i,
    {
        let file = files[i].as_str();
        proof {
            assert(names.take(i + 1).drop_last() =~= names.take(i as int));
            assert(names.take(i + 1).last() == file@);
        }
        let current = match find_source(sources, file) {
            Some(content) => content,
            None => {
                proof {
                    lemma_outcome_stays(
                        replace_config@,
                        template@,
                        sources@,
                        names,
                        i + 1,
                        prerelease,
                        noisy,
                        dry_run,
                    );
                }
                return (changes, Err(ValidationError::MissingFile { file: file.to_owned() }));
            },
        };
        let replaced = match replace_in_file(replace_config, file, template, current, prerelease) {
            Ok(out) => out,
            Err(fault) => {
                proof {
                    lemma_outcome_stays(
                        replace_config@,
                        template@,
                        sources@,
                        names,
                        i + 1,
                        prerelease,
                        noisy,
                        dry_run,
                    );
                }
                return (changes, Err(fault));
            },
        };
        match decide_change(file, current, replaced, noisy, dry_run) {
            Some(change) => {
                let ghost so_far = change_texts(changes@);
                changes.push(change);
                assert(change_texts(changes@) =~= so_far.push(change@));
            },
            None => {},
        }
        i += 1;
    }
    assert(names.take(i as int) =~= names);
    (changes, Ok(true))
}

/// A file whose rules leave its contents as they were is left alone: nothing
/// is written and nothing previewed, in a dry run or any other.
pub proof fn lemma_unchanged_file_is_left_alone(
    rules: Seq<Replace>,
    template: TemplateText,
    sources: Seq<FileSource>,
    files: Seq<Seq<char>>,
    file: Seq<char>,
    prerelease: bool,
    noisy: bool,
    dry_run: bool,
)
    requires
        source_of(sources, file) is Some,
        apply_rules(rules, file, template, source_of(sources, file)->0, prerelease) == Ok::<
            Seq<char>,
            ValidationText,
        >(source_of(sources, file)->0),
    ensures
        file_outcome(rules, template, sources, file, prerelease, noisy, dry_run) == Ok::<
            Option<FileChangeText>,
            ValidationText,
        >(None),
        outcome_of(rules, template, sources, files.push(file), prerelease, noisy, dry_run)
            == outcome_of(rules, template, sources, files, prerelease, noisy, dry_run),
{
    assert(files.push(file).drop_last() =~= files);
}

/// A rule that asks for an exact number of matches is at fault on any other
/// number: on fewer for want of matches, on more for their excess.
pub proof fn lemma_exact_count_is_enforced(rule: Replace, exactly: usize, found: usize)
    requires
        rule.min is None,
        rule.max is None,
        rule.exactly == Some(exactly),
    ensures
        occurrence_fault(rule, found) is None <==> found == exactly,
        found < exactly ==> occurrence_fault(rule, found)->0 is TooFew,
        found > exactly ==> occurrence_fault(rule, found)->0 is TooMany,
{
}

/// A file with a rule at fault is not changed: the fault is handed back, and
/// the changes are those decided before the file was taken up.
pub proof fn lemma_fault_changes_nothing(
    rules: Seq<Replace>,
    template: TemplateText,
    sources: Seq<FileSource>,
    files: Seq<Seq<char>>,
    file: Seq<char>,
    prerelease: bool,
    noisy: bool,
    dry_run: bool,
)
    requires
        file_outcome(rules, template, sources, file, prerelease, noisy, dry_run) is Err,
    ensures
        outcome_of(rules, template, sources, files.push(file), prerelease, noisy, dry_run).0
            == outcome_of(rules, template, sources, files, prerelease, noisy, dry_run).0,
        outcome_of(rules, template, sources, files.push(file), prerelease, noisy, dry_run).1 is Some,
{
    assert(files.push(file).drop_last() =~= files);
}

/// A fault among the first `n` files is the outcome of the whole list.
pub proof fn lemma_outcome_stays(
    rules: Seq<Replace>,
    template: TemplateText,
    sources: Seq<FileSource>,
    files: Seq<Seq<char>>,
    n: int,
    prerelease: bool,
    noisy: bool,
    dry_run: bool,
)
    requires
        0 <= n <= files.len(),
        outcome_of(rules, template, sources, files.take(n), prerelease, noisy, dry_run).1 is Some,
    ensures
        outcome_of(rules, template, sources, files, prerelease, noisy, dry_run) == outcome_of(
            rules,
            template,
            sources,
            files.take(n),
            prerelease,
            noisy,
            dry_run,
        ),
    decreases files.len(),
{
    if n == files.len() {
        assert(files.take(n) =~= files);
    } else {
        assert(files.drop_last().take(n) =~= files.take(n));
        lemma_outcome_stays(rules, template, sources, files.drop_last(), n, prerelease, noisy, dry_run);
    }
}

} // verus!
