//! Decisions on paths: which files a run looks at, and what their names say.
//!
//! Paths are texts. Two spellings of a path count as one where they agree after
//! [`normalized`].
use vstd::prelude::*;
use vstd::string::*;

use crate::model::Platform;
use crate::number::{number_worth, parse_count};
use crate::text::{
    begins_with, chars_of, contains_text, has_prefix, has_text, lowercase, lowercase_text,
    occurs_at, replace_char, text_eq, text_of, texts, with_replaced,
};

verus! {

/// The character between the components of a path.
pub open spec fn separator(platform: Platform) -> char {
    match platform {
        Platform::Unix => '/',
        Platform::Windows => '\\',
    }
}

/// The character between the components of a path.
pub fn main_separator(platform: Platform) -> (r: char)
    ensures
        r == separator(platform),
{
    match platform {
        Platform::Unix => '/',
        Platform::Windows => '\\',
    }
}

/// A path with one kind of separator, in lower case.
pub open spec fn normalized(path: Seq<char>, platform: Platform) -> Seq<char> {
    match platform {
        Platform::Unix => lowercase_text(with_replaced(path, '\\', '/')),
        Platform::Windows => lowercase_text(with_replaced(path, '/', '\\')),
    }
}

/// A path with one kind of separator, in lower case.
pub fn normalize_path_string(value: &str, platform: Platform) -> (r: String)
    ensures
        r@ == normalized(value@, platform),
{
    let unified = match platform {
        Platform::Unix => replace_char(value, '\\', '/'),
        Platform::Windows => replace_char(value, '/', '\\'),
    };
    lowercase(unified.as_str())
}

/// A normalized folder path that ends in a separator.
pub open spec fn normalized_dir(path: Seq<char>, platform: Platform) -> Seq<char> {
    let value = normalized(path, platform);
    if value.len() > 0 && value.last() == separator(platform) {
        value
    } else {
        value.push(separator(platform))
    }
}

/// A normalized folder path that ends in a separator: what the normalized path of
/// everything below the folder begins with.
pub fn normalize_dir_prefix(path: &str, platform: Platform) -> (r: String)
    ensures
        r@ == normalized_dir(path@, platform),
{
    let mut value = normalize_path_string(path, platform);
    let cs = chars_of(value.as_str());
    let sep = main_separator(platform);
    if cs.len() == 0 || cs[cs.len() - 1] != sep {
        value.push(sep);
    }
    value
}

/// `s` without the `c` that it ends with, however many.
pub open spec fn without_trailing(s: Seq<char>, c: char) -> Seq<char>
    decreases s.len(),
{
    if s.len() > 0 && s.last() == c {
        without_trailing(s.drop_last(), c)
    } else {
        s
    }
}

fn trim_trailing(s: &str, c: char) -> (r: String)
    ensures
        r@ == without_trailing(s@, c),
{
    let cs = chars_of(s);
    let mut to: usize = cs.len();
    proof {
        assert(cs@.take(to as int) =~= cs@);
    }
    while to > 0 && cs[to - 1] == c
        invariant
            to <= cs@.len(),
            without_trailing(cs@, c) == without_trailing(cs@.take(to as int), c),
        decreases to,
    {
        proof {
            assert(cs@.take(to as int).last() == cs@[to - 1]);
            assert(cs@.take(to as int).drop_last() =~= cs@.take(to - 1));
        }
        to = to - 1;
    }
    proof {
        assert(to > 0 ==> cs@.take(to as int).last() == cs@[to - 1]);
        assert(cs@.take(to as int) =~= cs@.subrange(0, to as int));
    }
    text_of(&cs, 0, to)
}

/// Whether a path is the output folder or lies below it.
pub open spec fn in_output(
    candidate: Seq<char>,
    output_dir: Seq<char>,
    platform: Platform,
) -> bool {
    let path = normalized(candidate, platform);
    let folder = normalized_dir(output_dir, platform);
    path == without_trailing(folder, separator(platform)) || begins_with(path, folder)
}

/// Whether a path is the output folder or lies below it.
pub fn is_output_path(candidate: &str, output_dir: &str, platform: Platform) -> (r: bool)
    ensures
        r == in_output(candidate@, output_dir@, platform),
{
    let path = normalize_path_string(candidate, platform);
    let folder = normalize_dir_prefix(output_dir, platform);
    let bare = trim_trailing(folder.as_str(), main_separator(platform));
    text_eq(path.as_str(), bare.as_str()) || has_prefix(path.as_str(), folder.as_str())
}

/// Whether a path contains a pattern: as it stands, or, where case does not count, once the
/// path is normalized.
pub open spec fn occurs_in(path: Seq<char>, pattern: Seq<char>, platform: Platform) -> bool {
    contains_text(path, pattern) || contains_text(
        normalized(path, platform),
        lowercase_text(pattern),
    )
}

/// Whether a path contains one of the patterns.
pub open spec fn any_occurs(
    path: Seq<char>,
    patterns: Seq<Seq<char>>,
    platform: Platform,
) -> bool {
    exists|i: int|
        0 <= i < patterns.len() && occurs_in(path, #[trigger] patterns[i], platform)
}

fn some_pattern_occurs(path: &str, patterns: &Vec<String>, platform: Platform) -> (r: bool)
    ensures
        r == any_occurs(path@, texts(patterns@), platform),
{
    let value = normalize_path_string(path, platform);
    let mut i: usize = 0;
    while i < patterns.len()
        invariant
            i <= patterns@.len(),
            value@ == normalized(path@, platform),
            forall|k: int|
                0 <= k < i ==> !occurs_in(path@, (#[trigger] patterns@[k])@, platform),
        decreases patterns@.len() - i,
    {
        let pattern = lowercase(patterns[i].as_str());
        if has_text(path, patterns[i].as_str()) || has_text(value.as_str(), pattern.as_str()) {
            proof {
                assert(texts(patterns@)[i as int] == patterns@[i as int]@);
            }
            return true;
        }
        i = i + 1;
    }
    proof {
        assert forall|k: int| 0 <= k < texts(patterns@).len() implies !occurs_in(
            path@,
            #[trigger] texts(patterns@)[k],
            platform,
        ) by {
            assert(texts(patterns@)[k] == patterns@[k]@);
        }
    }
    false
}

/// Whether a path passes the filters: it contains some include pattern, where there are
/// any, and no exclude pattern.
pub open spec fn passes_filters(
    path: Seq<char>,
    includes: Seq<Seq<char>>,
    excludes: Seq<Seq<char>>,
    platform: Platform,
) -> bool {
    (includes.len() == 0 || any_occurs(path, includes, platform)) && !any_occurs(
        path,
        excludes,
        platform,
    )
}

/// Whether a path passes the filters.
pub fn path_matches_filters(
    path: &str,
    includes: &Vec<String>,
    excludes: &Vec<String>,
    platform: Platform,
) -> (r: bool)
    ensures
        r == passes_filters(path@, texts(includes@), texts(excludes@), platform),
{
    let included = includes.len() == 0 || some_pattern_occurs(path, includes, platform);
    included && !some_pattern_occurs(path, excludes, platform)
}

/// Whether a path belongs to the operating system.
pub open spec fn system_protected(path: Seq<char>, platform: Platform) -> bool {
    let value = normalized(path, platform);
    platform == Platform::Windows && {
        ||| contains_text(value, "\\windows\\system32"@)
        ||| contains_text(value, "\\windows\\syswow64"@)
        ||| contains_text(value, "\\windows\\winsxs"@)
        ||| contains_text(value, "$recycle.bin"@)
        ||| contains_text(value, "system volume information"@)
    }
}

/// Whether a path belongs to the operating system.
pub fn is_system_protected_path(path: &str, platform: Platform) -> (r: bool)
    ensures
        r == system_protected(path@, platform),
{
    if platform == Platform::Unix {
        return false;
    }
    let value = normalize_path_string(path, platform);
    let v = value.as_str();
    has_text(v, "\\windows\\system32") || has_text(v, "\\windows\\syswow64") || has_text(
        v,
        "\\windows\\winsxs",
    ) || has_text(v, "$recycle.bin") || has_text(v, "system volume information")
}

/// Whether a file is one that a run looks at.
pub open spec fn is_candidate(
    path: Seq<char>,
    output_dir: Seq<char>,
    includes: Seq<Seq<char>>,
    excludes: Seq<Seq<char>>,
    platform: Platform,
) -> bool {
    &&& !in_output(path, output_dir, platform)
    &&& !system_protected(path, platform)
    &&& passes_filters(path, includes, excludes, platform)
}

/// Whether a file is one that a run looks at.
pub fn accepts_file(
    path: &str,
    output_dir: &str,
    includes: &Vec<String>,
    excludes: &Vec<String>,
    platform: Platform,
) -> (r: bool)
    ensures
        r == is_candidate(path@, output_dir@, texts(includes@), texts(excludes@), platform),
{
    !is_output_path(path, output_dir, platform) && !is_system_protected_path(path, platform)
        && path_matches_filters(path, includes, excludes, platform)
}

/// A run never looks at its own reports: nothing below the output folder is a candidate.
pub proof fn law_reports_are_no_candidates(
    path: Seq<char>,
    output_dir: Seq<char>,
    includes: Seq<Seq<char>>,
    excludes: Seq<Seq<char>>,
    platform: Platform,
)
    requires
        begins_with(normalized(path, platform), normalized_dir(output_dir, platform)),
    ensures
        !is_candidate(path, output_dir, includes, excludes, platform),
{
}

/// An exclude pattern that occurs in a path wins over every include pattern.
pub proof fn law_exclude_wins(
    path: Seq<char>,
    output_dir: Seq<char>,
    includes: Seq<Seq<char>>,
    excludes: Seq<Seq<char>>,
    platform: Platform,
    i: int,
)
    requires
        0 <= i < excludes.len(),
        occurs_in(path, excludes[i], platform),
    ensures
        !is_candidate(path, output_dir, includes, excludes, platform),
{
}

/// Where there are include patterns, a candidate holds one of them.
pub proof fn law_include_restricts(
    path: Seq<char>,
    output_dir: Seq<char>,
    includes: Seq<Seq<char>>,
    excludes: Seq<Seq<char>>,
    platform: Platform,
)
    requires
        includes.len() > 0,
        is_candidate(path, output_dir, includes, excludes, platform),
    ensures
        exists|i: int|
            0 <= i < includes.len() && occurs_in(path, #[trigger] includes[i], platform),
{
}

/// A filter takes effect on every path that contains its text: an include text lets the
/// path pass, where no exclude text is in it, and an exclude text keeps it out.
pub proof fn law_contained_text_matches(
    path: Seq<char>,
    includes: Seq<Seq<char>>,
    excludes: Seq<Seq<char>>,
    platform: Platform,
    i: int,
)
    ensures
        0 <= i < includes.len() && contains_text(path, includes[i]) && !any_occurs(
            path,
            excludes,
            platform,
        ) ==> passes_filters(path, includes, excludes, platform),
        0 <= i < excludes.len() && contains_text(path, excludes[i]) ==> !passes_filters(
            path,
            includes,
            excludes,
            platform,
        ),
{
}

/// The number in the name of a checkpoint file, given the name without its extension.
pub open spec fn checkpoint_number(stem: Seq<char>) -> Option<usize> {
    if begins_with(stem, "checkpoint_"@) {
        match number_worth(stem.skip("checkpoint_"@.len() as int), 10, false) {
            Some(n) => if n <= usize::MAX {
                Some(n as usize)
            } else {
                None
            },
            None => None,
        }
    } else {
        None
    }
}

/// The number in the name of a checkpoint file, given the name without its extension.
pub fn checkpoint_index(stem: &str) -> (r: Option<usize>)
    ensures
        r == checkpoint_number(stem@),
{
    if !has_prefix(stem, "checkpoint_") {
        return None;
    }
    let cs = chars_of(stem);
    let from: usize = 11;
    proof {
        reveal_strlit("checkpoint_");
        assert(stem@.skip(11) =~= stem@.subrange(11, stem@.len() as int));
    }
    let rest = text_of(&cs, from, cs.len());
    parse_count(rest.as_str())
}

/// Filters look at a path as it stands, and, once its separators are of one kind, without
/// regard to case: a path passes where one of the include texts is found in one of the two
/// ways, or there are none, and no exclude text is. Here for paths with slashes.
pub proof fn law_filters_on_unix(
    path: Seq<char>,
    includes: Seq<Seq<char>>,
    excludes: Seq<Seq<char>>,
)
    ensures
        passes_filters(path, includes, excludes, Platform::Unix) <==> {
            let lowered = lowercase_text(with_replaced(path, '\\', '/'));
            &&& includes.len() == 0 || exists|i: int|
                #![trigger includes[i]]
                0 <= i < includes.len() && (contains_text(path, includes[i]) || contains_text(
                    lowered,
                    lowercase_text(includes[i]),
                ))
            &&& forall|i: int|
                #![trigger excludes[i]]
                0 <= i < excludes.len() ==> !contains_text(path, excludes[i]) && !contains_text(
                    lowered,
                    lowercase_text(excludes[i]),
                )
        },
{
}

/// As [`law_filters_on_unix`], for paths with backslashes.
pub proof fn law_filters_on_windows(
    path: Seq<char>,
    includes: Seq<Seq<char>>,
    excludes: Seq<Seq<char>>,
)
    ensures
        passes_filters(path, includes, excludes, Platform::Windows) <==> {
            let lowered = lowercase_text(with_replaced(path, '/', '\\'));
            &&& includes.len() == 0 || exists|i: int|
                #![trigger includes[i]]
                0 <= i < includes.len() && (contains_text(path, includes[i]) || contains_text(
                    lowered,
                    lowercase_text(includes[i]),
                ))
            &&& forall|i: int|
                #![trigger excludes[i]]
                0 <= i < excludes.len() ==> !contains_text(path, excludes[i]) && !contains_text(
                    lowered,
                    lowercase_text(excludes[i]),
                )
        },
{
}

/// Case does not count in filters: where the lower-case form of a path contains that of a
/// filter text, the filter takes effect. An exclude text keeps the path out, and an include
/// text lets it pass where there are no exclude texts.
pub proof fn law_filters_ignore_case(
    path: Seq<char>,
    includes: Seq<Seq<char>>,
    excludes: Seq<Seq<char>>,
    platform: Platform,
    i: int,
)
    requires
        match platform {
            Platform::Unix => !path.contains('\\'),
            Platform::Windows => !path.contains('/'),
        },
    ensures
        0 <= i < excludes.len() && contains_text(lowercase_text(path), lowercase_text(excludes[i]))
            ==> !passes_filters(path, includes, excludes, platform),
        0 <= i < includes.len() && contains_text(lowercase_text(path), lowercase_text(includes[i]))
            ==> passes_filters(path, includes, Seq::empty(), platform),
{
    match platform {
        Platform::Unix => {
            assert(with_replaced(path, '\\', '/') =~= path) by {
                assert forall|k: int| 0 <= k < path.len() implies path[k] != '\\' by {
                    assert(path.contains(path[k]));
                }
            }
            law_filters_on_unix(path, includes, excludes);
            law_filters_on_unix(path, includes, Seq::empty());
        },
        Platform::Windows => {
            assert(with_replaced(path, '/', '\\') =~= path) by {
                assert forall|k: int| 0 <= k < path.len() implies path[k] != '/' by {
                    assert(path.contains(path[k]));
                }
            }
            law_filters_on_windows(path, includes, excludes);
            law_filters_on_windows(path, includes, Seq::empty());
        },
    }
}

/// The kind of separator does not count, nor does case: paths that differ in nothing else
/// lie in the same folders.
pub proof fn law_spellings_of_a_path(path: Seq<char>, other: Seq<char>, folder: Seq<char>)
    requires
        path.len() == other.len(),
        forall|i: int|
            #![trigger path[i]]
            #![trigger other[i]]
            0 <= i < path.len() ==> path[i] == other[i] || (path[i] == '/' && other[i] == '\\')
                || (path[i] == '\\' && other[i] == '/'),
    ensures
        normalized(path, Platform::Unix) == normalized(other, Platform::Unix),
        normalized(path, Platform::Windows) == normalized(other, Platform::Windows),
        in_output(path, folder, Platform::Unix) == in_output(other, folder, Platform::Unix),
        in_output(path, folder, Platform::Windows) == in_output(other, folder, Platform::Windows),
{
    assert(with_replaced(path, '\\', '/') =~= with_replaced(other, '\\', '/'));
    assert(with_replaced(path, '/', '\\') =~= with_replaced(other, '/', '\\'));
}

proof fn lemma_trailing_goes(bare: Seq<char>, tail: Seq<char>, c: char)
    requires
        bare.len() == 0 || bare.last() != c,
        forall|i: int| 0 <= i < tail.len() ==> #[trigger] tail[i] == c,
    ensures
        without_trailing(bare + tail, c) == bare,
    decreases tail.len(),
{
    if tail.len() == 0 {
        assert(bare + tail =~= bare);
    } else {
        assert((bare + tail).last() == tail.last());
        assert((bare + tail).drop_last() =~= bare + tail.drop_last());
        lemma_trailing_goes(bare, tail.drop_last(), c);
    }
}

/// The output folder, and what lies below it however deep, counts as output, and nothing
/// else does. `bare` and `tail` are the lower-case form of the folder, its separators of one
/// kind: `tail` is the separators that it ends with, if it ends with any.
pub proof fn law_output_is_the_folder_and_what_is_below(
    candidate: Seq<char>,
    folder: Seq<char>,
    platform: Platform,
    bare: Seq<char>,
    tail: Seq<char>,
)
    requires
        ({
            let sep = match platform {
                Platform::Unix => '/',
                Platform::Windows => '\\',
            };
            &&& bare + tail == match platform {
                Platform::Unix => lowercase_text(with_replaced(folder, '\\', '/')),
                Platform::Windows => lowercase_text(with_replaced(folder, '/', '\\')),
            }
            &&& bare.len() == 0 || bare.last() != sep
            &&& forall|i: int| 0 <= i < tail.len() ==> #[trigger] tail[i] == sep
        }),
    ensures
        in_output(candidate, folder, platform) <==> {
            let sep = match platform {
                Platform::Unix => '/',
                Platform::Windows => '\\',
            };
            let path = match platform {
                Platform::Unix => lowercase_text(with_replaced(candidate, '\\', '/')),
                Platform::Windows => lowercase_text(with_replaced(candidate, '/', '\\')),
            };
            let start = if tail.len() == 0 {
                bare.push(sep)
            } else {
                bare + tail
            };
            path == bare || (path.len() >= start.len() && path.take(start.len() as int) == start)
        },
{
    let sep = separator(platform);
    let path = normalized(candidate, platform);
    let value = normalized(folder, platform);
    let start = if tail.len() == 0 {
        bare.push(sep)
    } else {
        bare + tail
    };
    if tail.len() == 0 {
        assert(value =~= bare);
        assert(start =~= bare + seq![sep]);
        lemma_trailing_goes(bare, seq![sep], sep);
    } else {
        assert(value.last() == tail.last());
        lemma_trailing_goes(bare, tail, sep);
    }
    assert(normalized_dir(folder, platform) == start);
    if path.len() >= start.len() {
        assert(path.take(start.len() as int) =~= path.subrange(0, start.len() as int));
    }
}

/// Only on Windows are there paths that belong to the system: those with the folders of the
/// system, the recycle bin or the volume information in them, in any case.
pub proof fn law_system_paths(path: Seq<char>, before: Seq<char>, part: Seq<char>, after: Seq<char>)
    ensures
        !system_protected(path, Platform::Unix),
        lowercase_text(with_replaced(path, '/', '\\')) == before + part + after && {
            ||| part == "\\windows\\system32"@
            ||| part == "\\windows\\syswow64"@
            ||| part == "\\windows\\winsxs"@
            ||| part == "$recycle.bin"@
            ||| part == "system volume information"@
        } ==> system_protected(path, Platform::Windows),
        system_protected(path, Platform::Windows) ==> {
            let value = lowercase_text(with_replaced(path, '/', '\\'));
            ||| contains_text(value, "\\windows\\system32"@)
            ||| contains_text(value, "\\windows\\syswow64"@)
            ||| contains_text(value, "\\windows\\winsxs"@)
            ||| contains_text(value, "$recycle.bin"@)
            ||| contains_text(value, "system volume information"@)
        },
{
    let value = lowercase_text(with_replaced(path, '/', '\\'));
    if value == before + part + after {
        assert(value.subrange(
            before.len() as int,
            before.len() as int + part.len() as int,
        ) =~= part);
        assert(occurs_at(value, part, before.len() as int));
    }
}

/// A run looks at a file exactly where none of three things stands against it: that it is
/// output, that it belongs to the system, and that the filters keep it out.
pub proof fn law_what_a_run_looks_at(
    path: Seq<char>,
    output_dir: Seq<char>,
    includes: Seq<Seq<char>>,
    excludes: Seq<Seq<char>>,
    platform: Platform,
)
    ensures
        in_output(path, output_dir, platform) ==> !is_candidate(
            path,
            output_dir,
            includes,
            excludes,
            platform,
        ),
        system_protected(path, platform) ==> !is_candidate(
            path,
            output_dir,
            includes,
            excludes,
            platform,
        ),
        !passes_filters(path, includes, excludes, platform) ==> !is_candidate(
            path,
            output_dir,
            includes,
            excludes,
            platform,
        ),
        !in_output(path, output_dir, platform) && !system_protected(path, platform)
            && passes_filters(path, includes, excludes, platform) ==> is_candidate(
            path,
            output_dir,
            includes,
            excludes,
            platform,
        ),
        !in_output(path, output_dir, platform) && !system_protected(path, platform)
            ==> is_candidate(path, output_dir, Seq::empty(), Seq::empty(), platform),
{
}

/// The number of a checkpoint is whatever number stands behind the word, leading zeros or
/// not, where it is not out of range.
pub proof fn law_checkpoint_numbers(rest: Seq<char>)
    ensures
        checkpoint_number("checkpoint_"@ + rest) == match number_worth(rest, 10, false) {
            Some(n) => if n <= usize::MAX {
                Some(n as usize)
            } else {
                None
            },
            None => None,
        },
{
    let prefix = "checkpoint_"@;
    assert((prefix + rest).subrange(0, prefix.len() as int) =~= prefix);
    assert((prefix + rest).skip(prefix.len() as int) =~= rest);
}

} // verus!
