//! The canonical folder name of a song: `{id} ({name} - {author})` in ASCII,
//! with every run of characters that file systems refuse turned into `_`.
use vstd::prelude::*;
use vstd::utf8::is_ascii_chars;

verus! {

/// The ASCII transliteration that deunicode gives of `s`.
pub uninterp spec fn ascii_transliteration(s: Seq<char>) -> Seq<char>;

/// Relies on deunicode::deunicode: the result is ASCII, and text whose
/// characters all lie below U+007F is returned as it is (its fast path; DEL
/// and the control characters go through the table, which may drop them).
#[verifier::external_body]
pub(crate) fn transliterate(s: &str) -> (r: String)
    ensures
        r@ == ascii_transliteration(s@),
        is_ascii_chars(r@),
        (forall|i: int| 0 <= i < s@.len() ==> #[trigger] s@[i] < '\u{7f}') ==> r@ == s@,
{
    deunicode::deunicode(s)
}

/// The characters that a canonical folder name may not hold.
pub open spec fn is_forbidden(c: char) -> bool {
    c == '~' || c == '#' || c == '"' || c == '%' || c == '&' || c == '*' || c == ':' || c == '<'
        || c == '>' || c == '?' || c == '/' || c == '\\' || c == '{' || c == '|' || c == '}'
}

/// `s` with every maximal run of forbidden characters replaced by one `_`.
pub open spec fn sanitized(s: Seq<char>) -> Seq<char>
    decreases s.len(),
{
    if s.len() == 0 {
        seq![]
    } else if !is_forbidden(s.last()) {
        sanitized(s.drop_last()).push(s.last())
    } else if s.len() > 1 && is_forbidden(s[s.len() - 2]) {
        sanitized(s.drop_last())
    } else {
        sanitized(s.drop_last()).push('_')
    }
}

/// The regular expression that matches a run of forbidden characters.
pub const FORBIDDEN_RUNS: &'static str = r#"[~#"%&*:<>?/\\{|}]+"#;

/// Relies on regex::Regex::new and Regex::replace_all: `None` where the pattern
/// does not compile; for the pattern of one or more forbidden characters and
/// the replacement `_`, each leftmost-longest run of them is replaced by `_`.
#[verifier::external_body]
fn replace_all_matches(pattern: &str, text: &str, replacement: &str) -> (r: Option<String>)
    ensures
        r is None ==> !(pattern@ == FORBIDDEN_RUNS@ && replacement@ == "_"@),
        r matches Some(s) ==> (pattern@ == FORBIDDEN_RUNS@ && replacement@ == "_"@ ==> s@ == sanitized(text@)),
{
    regex::Regex::new(pattern).ok().map(|re| re.replace_all(text, replacement).into_owned())
}

/// `{id} ({name} - {author})`.
pub open spec fn label(id: Seq<char>, name: Seq<char>, author: Seq<char>) -> Seq<char> {
    id + " ("@ + name + " - "@ + author + ")"@
}

/// Writes `{id} ({name} - {author})`.
pub fn canonical_label(id: &str, name: &str, author: &str) -> (r: String)
    ensures
        r@ == label(id@, name@, author@),
{
    let mut r = String::from_str(id);
    r.append(" (");
    r.append(name);
    r.append(" - ");
    r.append(author);
    r.append(")");
    r
}

/// Replaces every run of forbidden characters of `text` by one `_`.
pub fn replace_forbidden_runs(text: &str) -> (r: String)
    ensures
        r@ == sanitized(text@),
{
    match replace_all_matches(FORBIDDEN_RUNS, text, "_") {
        Some(s) => s,
        None => {
            proof { assert(false); }
            String::new()
        },
    }
}

/// The canonical name of a song with catalog id `id`, display name `name`
/// and level author `author`.
pub open spec fn canonical_name_of(id: Seq<char>, name: Seq<char>, author: Seq<char>) -> Seq<char> {
    sanitized(label(id, ascii_transliteration(name), ascii_transliteration(author)))
}

/// No forbidden character survives sanitizing, and a text without forbidden
/// characters is left as it is.
pub proof fn lemma_sanitized(s: Seq<char>)
    ensures
        forall|i: int| 0 <= i < sanitized(s).len() ==> !is_forbidden(#[trigger] sanitized(s)[i]),
        (forall|i: int| 0 <= i < s.len() ==> !is_forbidden(#[trigger] s[i])) ==> sanitized(s) == s,
    decreases s.len(),
{
    if s.len() > 0 {
        lemma_sanitized(s.drop_last());
        let p = sanitized(s.drop_last());
        assert forall|i: int| 0 <= i < sanitized(s).len() implies !is_forbidden(
            #[trigger] sanitized(s)[i],
        ) by {
            if i < p.len() {
                assert(sanitized(s)[i] == p[i]);
            }
        }
        if forall|i: int| 0 <= i < s.len() ==> !is_forbidden(#[trigger] s[i]) {
            assert(!is_forbidden(s[s.len() - 1]));
            assert forall|i: int| 0 <= i < s.drop_last().len() implies !is_forbidden(
                #[trigger] s.drop_last()[i],
            ) by {
                assert(s.drop_last()[i] == s[i]);
            }
            assert(s.drop_last().push(s.last()) =~= s);
        }
    }
}

} // verus!
