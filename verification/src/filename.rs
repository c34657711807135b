//! The extension of the file that is written.

use vstd::prelude::*;

verus! {

/// `extension` stands in `name` right after the dot at index `dot`, and that
/// dot is not the first character of `name`.
pub open spec fn follows_dot(name: Seq<char>, extension: Seq<char>, dot: int) -> bool {
    &&& 0 < dot < name.len()
    &&& name[dot] == '.'
    &&& dot + 1 + extension.len() <= name.len()
    &&& name.subrange(dot + 1, dot + 1 + extension.len()) == extension
}

/// Calls `std::path::Path::extension` on `name`.
///
/// Believed of it, not proved: an extension that comes back holds no dot and
/// follows a dot of `name` that is not its first character; and a name that
/// is [`plain`] has the extension that [`plain_extension`] gives it.
#[verifier::external_body]
fn path_extension(name: &str) -> (extension: Option<String>)
    ensures
        extension matches Some(e) ==> !e@.contains('.') && exists|dot: int|
            follows_dot(name@, e@, dot),
        plain(name@) ==> shown(extension) == plain_extension(name@),
{
    match std::path::Path::new(name).extension() {
        Some(found) => match found.to_str() {
            Some(text) => Some(text.to_string()),
            None => None,
        },
        None => None,
    }
}

/// The extension of the file called `name`, without its dot, as the
/// platform's path rules see it; `None` if the name has none.
///
/// For a name without directories this is [`plain_extension`]. For any name,
/// an extension holds no dot and follows a dot of `name`.
pub fn extension_of(name: &str) -> (extension: Option<String>)
    ensures
        plain(name@) ==> shown(extension) == plain_extension(name@),
        extension matches Some(e) ==> !e@.contains('.') && exists|dot: int|
            follows_dot(name@, e@, dot),
        !name@.contains('.') ==> extension is None,
{
    path_extension(name)
}

/// What an extension holds, if there is one.
pub open spec fn shown(extension: Option<String>) -> Option<Seq<char>> {
    match extension {
        Some(e) => Some(e@),
        None => None,
    }
}

/// `name` is a file's name and no path: it holds none of the characters that
/// part a path on some platform, which are `/`, `\` and the `:` of a drive.
/// Every platform then takes all of `name` for the file's name.
pub open spec fn plain(name: Seq<char>) -> bool {
    forall|i: int|
        0 <= i < name.len() ==> {
            let c = #[trigger] name[i];
            c != '/' && c != '\\' && c != ':'
        }
}

/// The index of the last dot of `name`; `-1` if it holds none.
pub open spec fn last_dot(name: Seq<char>) -> int
    decreases name.len(),
{
    if name.len() == 0 {
        -1
    } else if name.last() == '.' {
        name.len() - 1
    } else {
        last_dot(name.drop_last())
    }
}

/// The extension of a file's name: what follows its last dot. There is none
/// if the name holds no dot, if its only dot is its first character, or if
/// the name is `..`, which is no file.
pub open spec fn plain_extension(name: Seq<char>) -> Option<Seq<char>> {
    if last_dot(name) <= 0 || name == seq!['.', '.'] {
        None
    } else {
        Some(name.skip(last_dot(name) + 1))
    }
}

/// The last dot is a dot, and no dot follows it.
pub proof fn lemma_last_dot(name: Seq<char>)
    ensures
        -1 <= last_dot(name) < name.len(),
        last_dot(name) >= 0 ==> name[last_dot(name)] == '.',
        forall|i: int| last_dot(name) < i < name.len() ==> name[i] != '.',
        last_dot(name) == -1 <==> !name.contains('.'),
    decreases name.len(),
{
    if name.len() > 0 && name.last() != '.' {
        let front = name.drop_last();
        lemma_last_dot(front);
        assert forall|i: int| last_dot(name) < i < name.len() implies name[i] != '.' by {
            if i < front.len() {
                assert(front[i] == name[i]);
            }
        }
        if last_dot(name) >= 0 {
            assert(front[last_dot(name)] == name[last_dot(name)]);
        }
    }
    if last_dot(name) >= 0 {
        assert(name.contains('.'));
    }
}

/// What is said of a plain name agrees with what is said of every name: its
/// extension holds no dot and follows a dot that is not the first character.
pub proof fn lemma_plain_extension(name: Seq<char>)
    ensures
        plain_extension(name) matches Some(e) ==> !e.contains('.') && follows_dot(
            name,
            e,
            last_dot(name),
        ),
        !name.contains('.') ==> plain_extension(name) is None,
{
    lemma_last_dot(name);
    if plain_extension(name) is Some {
        let dot = last_dot(name);
        let e = name.skip(dot + 1);
        assert(name.subrange(dot + 1, dot + 1 + e.len()) =~= e);
        assert forall|i: int| 0 <= i < e.len() implies e[i] != '.' by {
            assert(e[i] == name[dot + 1 + i]);
        }
    }
}

} // verus!
