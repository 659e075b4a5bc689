//! The HTTP method model: a closed set of known verbs plus an open
//! `Other` fallback. Parsing from text is case-insensitive and always
//! succeeds; unrecognized verbs are kept, lowercased, in `Other`.

use vstd::prelude::*;

use crate::text::push_char;

verus! {

/// An HTTP verb: one of the eight recognized methods, or any other
/// verb kept verbatim (lowercased) in `Other`.
#[derive(Debug)]
pub enum HttpMethod {
    Get,
    Post,
    Delete,
    Update,
    Put,
    Patch,
    Head,
    Options,
    Other(String),
}

/// The mathematical value of an [`HttpMethod`]: the `Other` payload is
/// a character sequence rather than an owned string.
pub enum MethodView {
    Get,
    Post,
    Delete,
    Update,
    Put,
    Patch,
    Head,
    Options,
    Other(Seq<char>),
}

impl View for HttpMethod {
    type V = MethodView;

    open spec fn view(&self) -> MethodView {
        match self {
            HttpMethod::Get => MethodView::Get,
            HttpMethod::Post => MethodView::Post,
            HttpMethod::Delete => MethodView::Delete,
            HttpMethod::Update => MethodView::Update,
            HttpMethod::Put => MethodView::Put,
            HttpMethod::Patch => MethodView::Patch,
            HttpMethod::Head => MethodView::Head,
            HttpMethod::Options => MethodView::Options,
            HttpMethod::Other(s) => MethodView::Other(s@),
        }
    }
}

impl PartialEq for HttpMethod {
    fn eq(&self, other: &HttpMethod) -> (r: bool) {
        match (self, other) {
            (HttpMethod::Get, HttpMethod::Get) => true,
            (HttpMethod::Post, HttpMethod::Post) => true,
            (HttpMethod::Delete, HttpMethod::Delete) => true,
            (HttpMethod::Update, HttpMethod::Update) => true,
            (HttpMethod::Put, HttpMethod::Put) => true,
            (HttpMethod::Patch, HttpMethod::Patch) => true,
            (HttpMethod::Head, HttpMethod::Head) => true,
            (HttpMethod::Options, HttpMethod::Options) => true,
            (HttpMethod::Other(a), HttpMethod::Other(b)) => a.eq(b),
            _ => false,
        }
    }
}

impl vstd::std_specs::cmp::PartialEqSpecImpl for HttpMethod {
    open spec fn obeys_eq_spec() -> bool {
        true
    }

    open spec fn eq_spec(&self, other: &HttpMethod) -> bool {
        self@ == other@
    }
}

impl Clone for HttpMethod {
    /// A clone has the same value as the original.
    fn clone(&self) -> (r: Self)
        ensures
            r == *self,
    {
        match self {
            HttpMethod::Get => HttpMethod::Get,
            HttpMethod::Post => HttpMethod::Post,
            HttpMethod::Delete => HttpMethod::Delete,
            HttpMethod::Update => HttpMethod::Update,
            HttpMethod::Put => HttpMethod::Put,
            HttpMethod::Patch => HttpMethod::Patch,
            HttpMethod::Head => HttpMethod::Head,
            HttpMethod::Options => HttpMethod::Options,
            HttpMethod::Other(s) => HttpMethod::Other(s.clone()),
        }
    }
}

/// `c` with an ASCII capital letter folded to lower case; any other
/// character is unchanged.
pub open spec fn lower_char(c: char) -> char {
    if c == 'A' {
        'a'
    } else if c == 'B' {
        'b'
    } else if c == 'C' {
        'c'
    } else if c == 'D' {
        'd'
    } else if c == 'E' {
        'e'
    } else if c == 'F' {
        'f'
    } else if c == 'G' {
        'g'
    } else if c == 'H' {
        'h'
    } else if c == 'I' {
        'i'
    } else if c == 'J' {
        'j'
    } else if c == 'K' {
        'k'
    } else if c == 'L' {
        'l'
    } else if c == 'M' {
        'm'
    } else if c == 'N' {
        'n'
    } else if c == 'O' {
        'o'
    } else if c == 'P' {
        'p'
    } else if c == 'Q' {
        'q'
    } else if c == 'R' {
        'r'
    } else if c == 'S' {
        's'
    } else if c == 'T' {
        't'
    } else if c == 'U' {
        'u'
    } else if c == 'V' {
        'v'
    } else if c == 'W' {
        'w'
    } else if c == 'X' {
        'x'
    } else if c == 'Y' {
        'y'
    } else if c == 'Z' {
        'z'
    } else {
        c
    }
}

/// `s` with every ASCII capital letter folded to lower case.
pub open spec fn lower(s: Seq<char>) -> Seq<char> {
    s.map_values(|c: char| lower_char(c))
}

fn lower_char_of(c: char) -> (r: char)
    ensures
        r == lower_char(c),
{
    if c == 'A' {
        'a'
    } else if c == 'B' {
        'b'
    } else if c == 'C' {
        'c'
    } else if c == 'D' {
        'd'
    } else if c == 'E' {
        'e'
    } else if c == 'F' {
        'f'
    } else if c == 'G' {
        'g'
    } else if c == 'H' {
        'h'
    } else if c == 'I' {
        'i'
    } else if c == 'J' {
        'j'
    } else if c == 'K' {
        'k'
    } else if c == 'L' {
        'l'
    } else if c == 'M' {
        'm'
    } else if c == 'N' {
        'n'
    } else if c == 'O' {
        'o'
    } else if c == 'P' {
        'p'
    } else if c == 'Q' {
        'q'
    } else if c == 'R' {
        'r'
    } else if c == 'S' {
        's'
    } else if c == 'T' {
        't'
    } else if c == 'U' {
        'u'
    } else if c == 'V' {
        'v'
    } else if c == 'W' {
        'w'
    } else if c == 'X' {
        'x'
    } else if c == 'Y' {
        'y'
    } else if c == 'Z' {
        'z'
    } else {
        c
    }
}

/// Folds every ASCII capital letter of `s` to lower case.
pub fn lowercase(s: &str) -> (r: String)
    ensures
        r@ == lower(s@),
{
    let v = crate::text::chars_of(s);
    let n = v.len();
    let mut r = String::new();
    let mut i: usize = 0;
    while i < n
        invariant
            n == v@.len(),
            v@ == s@,
            i <= n,
            r@ == lower(s@.take(i as int)),
        decreases n - i,
    {
        push_char(&mut r, lower_char_of(v[i]));
        i = i + 1;
        assert(r@ =~= lower(s@.take(i as int)));
    }
    assert(s@.take(n as int) =~= s@);
    r
}

/// Whether `l` (already lowercased) names one of the eight recognized
/// verbs.
pub open spec fn is_known_verb(l: Seq<char>) -> bool {
    ||| l == "get"@
    ||| l == "post"@
    ||| l == "update"@
    ||| l == "delete"@
    ||| l == "put"@
    ||| l == "patch"@
    ||| l == "head"@
    ||| l == "options"@
}

/// The method a verb string parses to: recognized verbs by name
/// (case-insensitively), anything else lowercased into `Other`.
pub open spec fn parse_method(s: Seq<char>) -> MethodView {
    let l = lower(s);
    if l == "get"@ {
        MethodView::Get
    } else if l == "post"@ {
        MethodView::Post
    } else if l == "update"@ {
        MethodView::Update
    } else if l == "delete"@ {
        MethodView::Delete
    } else if l == "put"@ {
        MethodView::Put
    } else if l == "patch"@ {
        MethodView::Patch
    } else if l == "head"@ {
        MethodView::Head
    } else if l == "options"@ {
        MethodView::Options
    } else {
        MethodView::Other(l)
    }
}

impl HttpMethod {
    /// Parses a verb string into a method, case-insensitively.
    /// Unrecognized verbs become `Other` of the lowercased verb, never
    /// an error.
    pub fn from_str_val(s: &str) -> (m: Self)
        ensures
            m@ == parse_method(s@),
    {
        let l = lowercase(s);
        if l == String::from_str("get") {
            HttpMethod::Get
        } else if l == String::from_str("post") {
            HttpMethod::Post
        } else if l == String::from_str("update") {
            HttpMethod::Update
        } else if l == String::from_str("delete") {
            HttpMethod::Delete
        } else if l == String::from_str("put") {
            HttpMethod::Put
        } else if l == String::from_str("patch") {
            HttpMethod::Patch
        } else if l == String::from_str("head") {
            HttpMethod::Head
        } else if l == String::from_str("options") {
            HttpMethod::Options
        } else {
            HttpMethod::Other(l)
        }
    }
}

proof fn lemma_lower_char_idempotent(c: char)
    ensures
        lower_char(lower_char(c)) == lower_char(c),
{
}

/// Lowercasing a string twice is the same as lowercasing it once.
pub proof fn lemma_lower_idempotent(s: Seq<char>)
    ensures
        lower(lower(s)) == lower(s),
{
    assert forall|i: int| 0 <= i < s.len() implies lower(lower(s))[i] == lower(s)[i] by {
        lemma_lower_char_idempotent(s[i]);
    }
    assert(lower(lower(s)) =~= lower(s));
}

/// Law: method parsing is case-insensitive — a verb and its lowercase
/// form parse to the same method, for every verb string.
pub proof fn lemma_parse_method_case_insensitive(s: Seq<char>)
    ensures
        parse_method(lower(s)) == parse_method(s),
{
    lemma_lower_idempotent(s);
}

/// Law: a verb whose lowercase form is none of the eight recognized
/// verbs parses to `Other` of that lowercase form.
pub proof fn lemma_parse_method_unrecognized(s: Seq<char>)
    requires
        !is_known_verb(lower(s)),
    ensures
        parse_method(s) == MethodView::Other(lower(s)),
{
}

/// Law: a verb reaches `Other(name)` exactly when its lowercase form
/// is `name` and `name` is not a recognized verb. In particular, a
/// route registered under `Other` of a recognized verb's name is
/// unreachable.
pub proof fn lemma_other_method_matches(name: Seq<char>, verb: Seq<char>)
    ensures
        parse_method(verb) == MethodView::Other(name) <==> (lower(verb) == name && !is_known_verb(
            name,
        )),
{
}

} // verus!
