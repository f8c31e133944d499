//! The language of a file, told by its name, and the name that suits a
//! file of a given language.

use vstd::prelude::*;
use crate::chars::{text_matches, to_chars};

verus! {

/// `s` ends with the characters `suffix`.
pub open spec fn ends_with(s: Seq<char>, suffix: Seq<char>) -> bool {
    suffix.len() <= s.len() && s.skip(s.len() - suffix.len()) == suffix
}

/// The language tag of a file called `name`: told by the extension, and
/// `plaintext` where the extension is not a known one.
pub open spec fn language_of(name: Seq<char>) -> Seq<char> {
    if ends_with(name, ".rs"@) {
        "rust"@
    } else if ends_with(name, ".js"@) {
        "javascript"@
    } else if ends_with(name, ".html"@) {
        "html"@
    } else if ends_with(name, ".css"@) {
        "css"@
    } else if ends_with(name, ".md"@) {
        "markdown"@
    } else if ends_with(name, ".json"@) {
        "json"@
    } else if ends_with(name, ".toml"@) {
        "toml"@
    } else if ends_with(name, ".yaml"@) || ends_with(name, ".yml"@) {
        "yaml"@
    } else {
        "plaintext"@
    }
}

/// Whether `name` ends with `suffix`.
fn has_suffix(name: &Vec<char>, suffix: &str) -> (b: bool)
    ensures
        b == ends_with(name@, suffix@),
{
    let tail = to_chars(suffix);
    if tail.len() > name.len() {
        return false;
    }
    let shift = name.len() - tail.len();
    let ghost end = name@.skip(shift as int);
    let mut i: usize = 0;
    while i < tail.len()
        invariant
            shift + tail.len() == name.len(),
            end == name@.skip(shift as int),
            tail@ == suffix@,
            i <= tail.len(),
            forall|j: int| 0 <= j < i ==> end[j] == tail@[j],
        decreases tail.len() - i,
    {
        assert(end[i as int] == name@[shift + i]);
        if name[shift + i] != tail[i] {
            return false;
        }
        i += 1;
    }
    assert(end =~= tail@);
    true
}

/// The language tag of a file called `file_name`.
pub fn language_for_file(file_name: &str) -> (language: &'static str)
    ensures
        language@ == language_of(file_name@),
{
    let name = to_chars(file_name);
    if has_suffix(&name, ".rs") {
        "rust"
    } else if has_suffix(&name, ".js") {
        "javascript"
    } else if has_suffix(&name, ".html") {
        "html"
    } else if has_suffix(&name, ".css") {
        "css"
    } else if has_suffix(&name, ".md") {
        "markdown"
    } else if has_suffix(&name, ".json") {
        "json"
    } else if has_suffix(&name, ".toml") {
        "toml"
    } else if has_suffix(&name, ".yaml") || has_suffix(&name, ".yml") {
        "yaml"
    } else {
        "plaintext"
    }
}

/// The file extension of a language; `txt` for a language without one.
pub open spec fn extension_of(language: Seq<char>) -> Seq<char> {
    if language == "rust"@ {
        "rs"@
    } else if language == "javascript"@ {
        "js"@
    } else if language == "html"@ {
        "html"@
    } else if language == "css"@ {
        "css"@
    } else if language == "markdown"@ {
        "md"@
    } else if language == "json"@ {
        "json"@
    } else if language == "toml"@ {
        "toml"@
    } else if language == "yaml"@ {
        "yaml"@
    } else {
        "txt"@
    }
}

/// The position of the last dot of `name`, or -1 if it has none.
pub open spec fn last_dot(name: Seq<char>) -> int
    decreases name.len(),
{
    if name.len() == 0 {
        -1
    } else if name.last() == '.' {
        name.len() - 1
    } else {
        last_dot(name.drop_last())
    }
}

/// The length of the base of a file name: what stands before its last dot,
/// or all of it if it has none.
pub open spec fn base_len(name: Seq<char>) -> int {
    if last_dot(name) < 0 {
        name.len() as int
    } else {
        last_dot(name)
    }
}

/// `name` with its extension replaced by that of `language`, or with that
/// extension added if it has none.
pub open spec fn renamed_for(name: Seq<char>, language: Seq<char>) -> Seq<char> {
    name.take(base_len(name)).push('.') + extension_of(language)
}

/// `last_dot` is the position of a dot that no dot follows; in a name
/// without dots it is -1.
pub proof fn lemma_last_dot(name: Seq<char>)
    ensures
        -1 <= last_dot(name) < name.len(),
        last_dot(name) >= 0 ==> name[last_dot(name)] == '.',
        forall|i: int| last_dot(name) < i < name.len() ==> name[i] != '.',
    decreases name.len(),
{
    if name.len() > 0 && name.last() != '.' {
        let front = name.drop_last();
        lemma_last_dot(front);
        assert forall|i: int| last_dot(name) < i < name.len() implies name[i] != '.' by {
            if i < front.len() {
                assert(front[i] == name[i]);
            }
        }
        if last_dot(front) >= 0 {
            assert(front[last_dot(front)] == name[last_dot(front)]);
        }
    }
}

/// The file extension of `language`.
pub fn extension_for(language: &str) -> (extension: &'static str)
    ensures
        extension@ == extension_of(language@),
{
    let name = to_chars(language);
    if text_matches("rust", &name) {
        "rs"
    } else if text_matches("javascript", &name) {
        "js"
    } else if text_matches("html", &name) {
        "html"
    } else if text_matches("css", &name) {
        "css"
    } else if text_matches("markdown", &name) {
        "md"
    } else if text_matches("json", &name) {
        "json"
    } else if text_matches("toml", &name) {
        "toml"
    } else if text_matches("yaml", &name) {
        "yaml"
    } else {
        "txt"
    }
}

/// `file_name` with the extension of `language` in place of its own.
pub fn rename_for_language(file_name: &str, language: &str) -> (renamed: String)
    ensures
        renamed@ == renamed_for(file_name@, language@),
{
    let name = to_chars(file_name);
    let mut base: usize = name.len();
    let mut i: usize = 0;
    assert(name@.take(0) =~= Seq::<char>::empty());
    while i < name.len()
        invariant
            i <= name.len(),
            base == if last_dot(name@.take(i as int)) < 0 {
                name.len() as int
            } else {
                last_dot(name@.take(i as int))
            },
        decreases name.len() - i,
    {
        proof {
            assert(name@.take(i + 1).drop_last() =~= name@.take(i as int));
            lemma_last_dot(name@.take(i as int));
        }
        if name[i] == '.' {
            base = i;
        }
        i += 1;
    }
    proof {
        assert(name@.take(name@.len() as int) =~= name@);
        lemma_last_dot(name@);
    }
    let mut renamed = file_name.substring_char(0, base).to_string();
    renamed.push('.');
    renamed.append(extension_for(language));
    renamed
}

/// A language that has a file extension of its own.
pub open spec fn has_own_extension(language: Seq<char>) -> bool {
    language == "rust"@ || language == "javascript"@ || language == "html"@ || language == "css"@
        || language == "markdown"@ || language == "json"@ || language == "toml"@ || language
        == "yaml"@
}

/// No character of `s` is a dot.
spec fn dotless(s: Seq<char>) -> bool {
    forall|i: int| 0 <= i < s.len() ==> #[trigger] s[i] != '.'
}

/// A name made of a base, a dot and an extension ends with a dot and
/// `probe` exactly if `probe` is the extension.
proof fn lemma_ends_with_extension(base: Seq<char>, extension: Seq<char>, probe: Seq<char>)
    requires
        dotless(extension),
        dotless(probe),
    ensures
        ends_with(base.push('.') + extension, seq!['.'] + probe) <==> extension == probe,
{
    let name = base.push('.') + extension;
    let suffix = seq!['.'] + probe;
    if extension == probe {
        assert(name.skip(name.len() - suffix.len()) == suffix);
    }
    if ends_with(name, suffix) {
        let tail = name.skip(name.len() - suffix.len());
        assert(tail[0] == '.');
        assert(tail[0] == name[name.len() - suffix.len()]);
        if probe.len() < extension.len() {
            assert(name[name.len() - suffix.len()] == extension[extension.len() - suffix.len()]);
        }
        if probe.len() > extension.len() {
            let at = probe.len() - extension.len();
            assert(tail[at] == name[base.len() as int]);
            assert(tail[at] == probe[at - 1]);
        }
        assert forall|i: int| 0 <= i < probe.len() implies extension[i] == probe[i] by {
            assert(tail[i + 1] == name[base.len() + 1 + i]);
            assert(tail[i + 1] == probe[i]);
        }
        assert(extension == probe);
    }
}

/// What the file extensions and the names of the languages are made of.
proof fn lemma_extension_texts()
    ensures
        "rs"@ == seq!['r', 's'],
        "js"@ == seq!['j', 's'],
        "html"@ == seq!['h', 't', 'm', 'l'],
        "css"@ == seq!['c', 's', 's'],
        "md"@ == seq!['m', 'd'],
        "json"@ == seq!['j', 's', 'o', 'n'],
        "toml"@ == seq!['t', 'o', 'm', 'l'],
        "yaml"@ == seq!['y', 'a', 'm', 'l'],
        "yml"@ == seq!['y', 'm', 'l'],
        ".rs"@ == seq!['.'] + "rs"@,
        ".js"@ == seq!['.'] + "js"@,
        ".html"@ == seq!['.'] + "html"@,
        ".css"@ == seq!['.'] + "css"@,
        ".md"@ == seq!['.'] + "md"@,
        ".json"@ == seq!['.'] + "json"@,
        ".toml"@ == seq!['.'] + "toml"@,
        ".yaml"@ == seq!['.'] + "yaml"@,
        ".yml"@ == seq!['.'] + "yml"@,
        "rust"@.len() == 4 && "rust"@[0] == 'r',
        "javascript"@.len() == 10,
        "html"@.len() == 4 && "html"@[0] == 'h',
        "css"@.len() == 3,
        "markdown"@.len() == 8,
        "json"@.len() == 4 && "json"@[0] == 'j',
        "toml"@.len() == 4 && "toml"@[0] == 't',
        "yaml"@.len() == 4 && "yaml"@[0] == 'y',
{
    reveal_strlit("rs");
    reveal_strlit("js");
    reveal_strlit("html");
    reveal_strlit("css");
    reveal_strlit("md");
    reveal_strlit("json");
    reveal_strlit("toml");
    reveal_strlit("yaml");
    reveal_strlit("yml");
    reveal_strlit(".rs");
    reveal_strlit(".js");
    reveal_strlit(".html");
    reveal_strlit(".css");
    reveal_strlit(".md");
    reveal_strlit(".json");
    reveal_strlit(".toml");
    reveal_strlit(".yaml");
    reveal_strlit(".yml");
    reveal_strlit("rust");
    reveal_strlit("javascript");
    reveal_strlit("markdown");
    assert("rs"@ =~= seq!['r', 's']);
    assert("js"@ =~= seq!['j', 's']);
    assert("html"@ =~= seq!['h', 't', 'm', 'l']);
    assert("css"@ =~= seq!['c', 's', 's']);
    assert("md"@ =~= seq!['m', 'd']);
    assert("json"@ =~= seq!['j', 's', 'o', 'n']);
    assert("toml"@ =~= seq!['t', 'o', 'm', 'l']);
    assert("yaml"@ =~= seq!['y', 'a', 'm', 'l']);
    assert("yml"@ =~= seq!['y', 'm', 'l']);
    assert(".rs"@ =~= seq!['.'] + "rs"@);
    assert(".js"@ =~= seq!['.'] + "js"@);
    assert(".html"@ =~= seq!['.'] + "html"@);
    assert(".css"@ =~= seq!['.'] + "css"@);
    assert(".md"@ =~= seq!['.'] + "md"@);
    assert(".json"@ =~= seq!['.'] + "json"@);
    assert(".toml"@ =~= seq!['.'] + "toml"@);
    assert(".yaml"@ =~= seq!['.'] + "yaml"@);
    assert(".yml"@ =~= seq!['.'] + "yml"@);
}

/// A file that is renamed for a language with an extension of its own is
/// then told to be of that language.
pub proof fn lemma_rename_sets_language(name: Seq<char>, language: Seq<char>)
    requires
        has_own_extension(language),
    ensures
        language_of(renamed_for(name, language)) == language,
{
    lemma_extension_texts();
    let base = name.take(base_len(name));
    let extension = extension_of(language);
    assert(dotless(extension));
    assert(dotless("rs"@) && dotless("js"@) && dotless("html"@) && dotless("css"@) && dotless(
        "md"@,
    ) && dotless("json"@) && dotless("toml"@) && dotless("yaml"@) && dotless("yml"@));
    lemma_ends_with_extension(base, extension, "rs"@);
    lemma_ends_with_extension(base, extension, "js"@);
    lemma_ends_with_extension(base, extension, "html"@);
    lemma_ends_with_extension(base, extension, "css"@);
    lemma_ends_with_extension(base, extension, "md"@);
    lemma_ends_with_extension(base, extension, "json"@);
    lemma_ends_with_extension(base, extension, "toml"@);
    lemma_ends_with_extension(base, extension, "yaml"@);
    lemma_ends_with_extension(base, extension, "yml"@);
}

} // verus!
