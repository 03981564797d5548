//! Document paths: pointer-like token lists that address a location inside a
//! JSON or XML document (`$.items[2]['@name']`). Paths are built by the plan
//! builders and consumed by the resolvers; their canonical text form is part
//! of the plan text format.

use vstd::prelude::*;

verus! {

use crate::strutil::{dec_seq, push_dec, push_str};
use vstd::string::StrSliceExecFns;

/// One step of a document path.
#[derive(Debug, PartialEq)]
pub enum PathToken {
    /// The document root, written `$`
    Root,
    /// A named member of an object or element, written `.name` or `['name']`
    Field(String),
    /// A concrete array index, written `[3]`
    Index(usize),
    /// The wildcard index, written `[*]`
    StarIndex,
    /// The wildcard member, written `.*`
    Star,
}

/// Specification-level form of a path token.
#[verifier::ext_equal]
pub enum PathTokV {
    Root,
    Field(Seq<char>),
    Index(int),
    StarIndex,
    Star,
}

impl View for PathToken {
    type V = PathTokV;

    open spec fn view(&self) -> PathTokV {
        match self {
            PathToken::Root => PathTokV::Root,
            PathToken::Field(s) => PathTokV::Field(s@),
            PathToken::Index(i) => PathTokV::Index(*i as int),
            PathToken::StarIndex => PathTokV::StarIndex,
            PathToken::Star => PathTokV::Star,
        }
    }
}

/// A document path: a root token followed by member and index steps.
#[derive(Debug, PartialEq)]
pub struct DocPath {
    pub tokens: Vec<PathToken>,
}

impl Clone for PathToken {
    fn clone(&self) -> (res: Self)
        ensures
            res@ == self@,
    {
        match self {
            PathToken::Root => PathToken::Root,
            PathToken::Field(s) => PathToken::Field(s.clone()),
            PathToken::Index(i) => PathToken::Index(*i),
            PathToken::StarIndex => PathToken::StarIndex,
            PathToken::Star => PathToken::Star,
        }
    }
}

impl Clone for DocPath {
    fn clone(&self) -> (res: Self)
        ensures
            res@ == self@,
    {
        let tokens = self.tokens.clone();
        let res = DocPath { tokens };
        proof {
            assert(res@ =~= self@);
        }
        res
    }
}

impl View for DocPath {
    type V = Seq<PathTokV>;

    open spec fn view(&self) -> Seq<PathTokV> {
        self.tokens@.map(|i: int, t: PathToken| t@)
    }
}

/// A character that may stand unquoted in the `.name` form of a field.
pub open spec fn is_ident_char(c: char) -> bool {
    ('a' <= c && c <= 'z') || ('A' <= c && c <= 'Z') || ('0' <= c && c <= '9') || c == '_'
        || c == '-'
}

/// A field name that may stand unquoted after a dot.
pub open spec fn is_ident(s: Seq<char>) -> bool {
    s.len() > 0 && forall|i: int| 0 <= i < s.len() ==> is_ident_char(s[i])
}

/// The text form of one token.
pub open spec fn token_text(t: PathTokV) -> Seq<char> {
    match t {
        PathTokV::Root => "$"@,
        PathTokV::Field(f) => if is_ident(f) {
            "."@ + f
        } else {
            "['"@ + f + "']"@
        },
        PathTokV::Index(i) => "["@ + dec_seq(i as nat) + "]"@,
        PathTokV::StarIndex => "[*]"@,
        PathTokV::Star => ".*"@,
    }
}

/// The text form of a whole path: its tokens' texts, concatenated.
pub open spec fn path_text(toks: Seq<PathTokV>) -> Seq<char>
    decreases toks.len(),
{
    if toks.len() == 0 {
        Seq::empty()
    } else {
        path_text(toks.drop_last()) + token_text(toks.last())
    }
}

/// The JSON-pointer-like form used in a few diagnostic messages.
pub open spec fn pointer_text(toks: Seq<PathTokV>) -> Seq<char>
    decreases toks.len(),
{
    if toks.len() == 0 {
        Seq::empty()
    } else {
        pointer_text(toks.drop_last()) + match toks.last() {
            PathTokV::Root => Seq::<char>::empty(),
            PathTokV::Field(f) => "/"@ + f,
            PathTokV::Index(i) => "/"@ + dec_seq(i as nat),
            PathTokV::StarIndex => "/*"@,
            PathTokV::Star => "/*"@,
        }
    }
}

/// A well-formed path starts at the root and never mentions it again.
pub open spec fn path_wf(toks: Seq<PathTokV>) -> bool {
    toks.len() > 0 && toks[0] is Root && forall|i: int| 0 < i < toks.len() ==> !(toks[i] is Root)
}

fn is_ident_str(s: &str) -> (r: bool)
    ensures
        r == is_ident(s@),
{
    let len = s.unicode_len();
    if len == 0 {
        return false;
    }
    let mut i: usize = 0;
    while i < len
        invariant
            i <= len,
            len == s@.len(),
            forall|j: int| 0 <= j < i ==> is_ident_char(s@[j]),
        decreases len - i,
    {
        let c = s.get_char(i);
        let ok = ('a' <= c && c <= 'z') || ('A' <= c && c <= 'Z') || ('0' <= c && c <= '9')
            || c == '_' || c == '-';
        if !ok {
            return false;
        }
        i = i + 1;
    }
    true
}

/// Appends the text form of one token to `out`.
fn push_token(out: &mut Vec<char>, t: &PathToken)
    ensures
        final(out)@ == old(out)@ + token_text(t@),
{
    match t {
        PathToken::Root => push_str(out, "$"),
        PathToken::Field(f) => {
            if is_ident_str(f.as_str()) {
                push_str(out, ".");
                push_str(out, f.as_str());
            } else {
                push_str(out, "['");
                push_str(out, f.as_str());
                push_str(out, "']");
            }
            assert(out@ =~= old(out)@ + token_text(t@));
        },
        PathToken::Index(i) => {
            push_str(out, "[");
            push_dec(out, *i as u64);
            push_str(out, "]");
            assert(out@ =~= old(out)@ + token_text(t@));
        },
        PathToken::StarIndex => push_str(out, "[*]"),
        PathToken::Star => push_str(out, ".*"),
    }
}

impl DocPath {
    /// The root path `$`.
    pub fn root() -> (r: DocPath)
        ensures
            r@ =~= seq![PathTokV::Root],
            path_wf(r@),
    {
        let mut tokens: Vec<PathToken> = Vec::new();
        tokens.push(PathToken::Root);
        let r = DocPath { tokens };
        proof {
            assert(r@ =~= seq![PathTokV::Root]);
        }
        r
    }

    /// True when this path is just the root.
    pub fn is_root(&self) -> (r: bool)
        ensures
            r == (self@.len() == 1 && self@[0] is Root),
    {
        if self.tokens.len() != 1 {
            return false;
        }
        matches!(self.tokens[0], PathToken::Root)
    }

    /// The number of tokens, the root included.
    pub fn len(&self) -> (r: usize)
        ensures
            r == self@.len(),
    {
        self.tokens.len()
    }

    /// The tokens of this path.
    pub fn tokens(&self) -> (r: &Vec<PathToken>)
        ensures
            r@.map(|i: int, t: PathToken| t@) == self@,
    {
        &self.tokens
    }

    /// This path extended by a named member.
    pub fn join_field(&self, name: &str) -> (r: DocPath)
        ensures
            r@ =~= self@ + seq![PathTokV::Field(name@)],
    {
        let mut tokens = self.tokens.clone();
        tokens.push(PathToken::Field(String::from_str(name)));
        DocPath { tokens }
    }

    /// This path extended by a concrete index.
    pub fn join_index(&self, index: usize) -> (r: DocPath)
        ensures
            r@ =~= self@ + seq![PathTokV::Index(index as int)],
    {
        let mut tokens = self.tokens.clone();
        tokens.push(PathToken::Index(index));
        DocPath { tokens }
    }

    /// This path extended by one step written as text: `[*]` appends the
    /// wildcard index, `*` the wildcard member, anything else a field.
    pub fn join(&self, step: &str) -> (r: DocPath)
        ensures
            r@ =~= self@ + seq![
                if step@ == "[*]"@ {
                    PathTokV::StarIndex
                } else if step@ == "*"@ {
                    PathTokV::Star
                } else {
                    PathTokV::Field(step@)
                },
            ],
    {
        let mut tokens = self.tokens.clone();
        if crate::strutil::str_eq(step, "[*]") {
            tokens.push(PathToken::StarIndex);
        } else if crate::strutil::str_eq(step, "*") {
            tokens.push(PathToken::Star);
        } else {
            tokens.push(PathToken::Field(String::from_str(step)));
        }
        DocPath { tokens }
    }

    /// The last token, if any.
    pub fn last(&self) -> (r: Option<&PathToken>)
        ensures
            match r {
                Some(t) => self@.len() > 0 && t@ == self@.last(),
                None => self@.len() == 0,
            },
    {
        self.tokens.last()
    }

    /// The name of the first field step, if the path starts `$.name`.
    pub fn first_field(&self) -> (r: Option<&String>)
        ensures
            match r {
                Some(s) => self@.len() >= 2 && self@[1] == PathTokV::Field(s@),
                None => self@.len() < 2 || !(self@[1] is Field),
            },
    {
        if self.tokens.len() >= 2 {
            if let PathToken::Field(name) = &self.tokens[1] {
                return Some(name);
            }
        }
        None
    }

    /// The name of the last field step, if the path ends in one.
    pub fn last_field(&self) -> (r: Option<&String>)
        ensures
            match r {
                Some(s) => self@.len() > 0 && self@.last() == PathTokV::Field(s@),
                None => self@.len() == 0 || !(self@.last() is Field),
            },
    {
        if self.tokens.len() >= 1 {
            if let PathToken::Field(name) = &self.tokens[self.tokens.len() - 1] {
                return Some(name);
            }
        }
        None
    }

    /// True when the path ends with the wildcard member `.*`.
    pub fn is_wildcard(&self) -> (r: bool)
        ensures
            r == (self@.len() > 0 && self@.last() is Star),
    {
        if self.tokens.len() == 0 {
            return false;
        }
        matches!(self.tokens[self.tokens.len() - 1], PathToken::Star)
    }

    /// True when the path ends `.name[*]` for the given name.
    pub fn ends_with_star_index_of(&self, name: &str) -> (r: bool)
        ensures
            r == (self@.len() >= 2 && self@.last() is StarIndex && self@[self@.len() - 2]
                == PathTokV::Field(name@)),
    {
        let n = self.tokens.len();
        if n < 2 {
            return false;
        }
        if !matches!(self.tokens[n - 1], PathToken::StarIndex) {
            return false;
        }
        if let PathToken::Field(f) = &self.tokens[n - 2] {
            crate::strutil::str_eq(f.as_str(), name)
        } else {
            false
        }
    }

    /// The path with every index and wildcard-index step removed.
    pub fn drop_indices(&self) -> (r: DocPath)
        ensures
            r@ == self@.filter(|t: PathTokV| !(t is Index) && !(t is StarIndex)),
    {
        let mut tokens: Vec<PathToken> = Vec::new();
        let mut i: usize = 0;
        proof {
            assert(self@.take(0) =~= Seq::<PathTokV>::empty());
            reveal_with_fuel(Seq::filter, 2);
            assert(self@.take(0).filter(|t: PathTokV| !(t is Index) && !(t is StarIndex)) =~= Seq::<
                PathTokV,
            >::empty());
        }
        while i < self.tokens.len()
            invariant
                i <= self.tokens.len(),
                tokens@.map(|k: int, t: PathToken| t@) =~= self@.take(i as int).filter(
                    |t: PathTokV| !(t is Index) && !(t is StarIndex),
                ),
            decreases self.tokens.len() - i,
        {
            let keep = match &self.tokens[i] {
                PathToken::Index(_) => false,
                PathToken::StarIndex => false,
                _ => true,
            };
            proof {
                assert(self@.take(i + 1).drop_last() =~= self@.take(i as int));
                reveal_with_fuel(Seq::filter, 2);
            }
            if keep {
                tokens.push(self.tokens[i].clone());
            }
            assert(tokens@.map(|k: int, t: PathToken| t@) =~= self@.take(i + 1).filter(
                |t: PathTokV| !(t is Index) && !(t is StarIndex),
            ));
            i = i + 1;
        }
        proof {
            assert(self@.take(self.tokens.len() as int) =~= self@);
        }
        DocPath { tokens }
    }

    /// The canonical text form of this path.
    pub fn to_string(&self) -> (r: String)
        ensures
            r@ == path_text(self@),
    {
        let mut out: Vec<char> = Vec::new();
        let mut i: usize = 0;
        while i < self.tokens.len()
            invariant
                i <= self.tokens.len(),
                out@ =~= path_text(self@.take(i as int)),
            decreases self.tokens.len() - i,
        {
            push_token(&mut out, &self.tokens[i]);
            proof {
                assert(self@.take(i + 1).drop_last() =~= self@.take(i as int));
                assert(self@.take(i + 1).last() == self@[i as int]);
            }
            i = i + 1;
        }
        proof {
            assert(self@.take(self.tokens.len() as int) =~= self@);
        }
        crate::strutil::chars_to_string(&out)
    }

    /// The JSON-pointer-like form used in diagnostic messages.
    pub fn as_json_pointer(&self) -> (r: String)
        ensures
            r@ == pointer_text(self@),
    {
        let mut out: Vec<char> = Vec::new();
        let mut i: usize = 0;
        while i < self.tokens.len()
            invariant
                i <= self.tokens.len(),
                out@ =~= pointer_text(self@.take(i as int)),
            decreases self.tokens.len() - i,
        {
            match &self.tokens[i] {
                PathToken::Root => (),
                PathToken::Field(f) => {
                    push_str(&mut out, "/");
                    push_str(&mut out, f.as_str());
                },
                PathToken::Index(idx) => {
                    push_str(&mut out, "/");
                    push_dec(&mut out, *idx as u64);
                },
                PathToken::StarIndex => push_str(&mut out, "/*"),
                PathToken::Star => push_str(&mut out, "/*"),
            }
            proof {
                assert(self@.take(i + 1).drop_last() =~= self@.take(i as int));
                assert(self@.take(i + 1).last() == self@[i as int]);
            }
            assert(out@ =~= pointer_text(self@.take(i + 1)));
            i = i + 1;
        }
        proof {
            assert(self@.take(self.tokens.len() as int) =~= self@);
        }
        crate::strutil::chars_to_string(&out)
    }

    /// Replaces the first wildcard index with the given concrete index.
    pub fn inject_index(&self, index: usize) -> (r: DocPath)
        ensures
            r@ == inject_index_spec(self@, index as int),
    {
        let mut tokens: Vec<PathToken> = Vec::new();
        let mut i: usize = 0;
        let mut done: bool = false;
        while i < self.tokens.len()
            invariant
                i <= self.tokens.len(),
                tokens@.map(|k: int, t: PathToken| t@) =~= inject_index_spec(
                    self@.take(i as int),
                    index as int,
                ),
                done == self@.take(i as int).contains(PathTokV::StarIndex),
            decreases self.tokens.len() - i,
        {
            proof {
                assert(self@.take(i + 1).drop_last() =~= self@.take(i as int));
                assert(self@.take(i + 1).last() == self@[i as int]);
            }
            let is_star = matches!(self.tokens[i], PathToken::StarIndex);
            if is_star && !done {
                proof {
                    lemma_inject_no_star(self@.take(i as int), index as int);
                }
                tokens.push(PathToken::Index(index));
                done = true;
            } else {
                tokens.push(self.tokens[i].clone());
            }
            proof {
                if self@.take(i + 1).contains(PathTokV::StarIndex) {
                    let w = choose|k: int|
                        0 <= k < i + 1 && #[trigger] self@.take(i + 1)[k] == PathTokV::StarIndex;
                    if w < i {
                        assert(self@.take(i as int)[w] == PathTokV::StarIndex);
                        assert(self@.take(i as int).contains(PathTokV::StarIndex));
                    }
                }
                if self@.take(i as int).contains(PathTokV::StarIndex) {
                    let w = choose|k: int|
                        0 <= k < i && #[trigger] self@.take(i as int)[k] == PathTokV::StarIndex;
                    assert(self@.take(i + 1)[w] == PathTokV::StarIndex);
                    assert(self@.take(i + 1).contains(PathTokV::StarIndex));
                }
            }
            assert(tokens@.map(|k: int, t: PathToken| t@) =~= inject_index_spec(
                self@.take(i + 1),
                index as int,
            ));
            i = i + 1;
        }
        proof {
            assert(self@.take(self.tokens.len() as int) =~= self@);
        }
        DocPath { tokens }
    }
}

proof fn lemma_inject_no_star(toks: Seq<PathTokV>, index: int)
    requires
        !toks.contains(PathTokV::StarIndex),
    ensures
        inject_index_spec(toks, index) == toks,
    decreases toks.len(),
{
    if toks.len() > 0 {
        assert(forall|k: int|
            0 <= k < toks.len() - 1 ==> toks.drop_last()[k] == #[trigger] toks[k]);
        assert(!toks.drop_last().contains(PathTokV::StarIndex)) by {
            if toks.drop_last().contains(PathTokV::StarIndex) {
                let w = choose|k: int|
                    0 <= k < toks.len() - 1 && #[trigger] toks.drop_last()[k]
                        == PathTokV::StarIndex;
                assert(toks[w] == PathTokV::StarIndex);
            }
        }
        assert(!(toks.last() is StarIndex)) by {
            assert(toks[toks.len() - 1] == toks.last());
        }
        lemma_inject_no_star(toks.drop_last(), index);
        assert(inject_index_spec(toks, index) =~= toks);
    }
}

/// `toks` with its first wildcard index replaced by `index`.
pub open spec fn inject_index_spec(toks: Seq<PathTokV>, index: int) -> Seq<PathTokV>
    decreases toks.len(),
{
    if toks.len() == 0 {
        toks
    } else if toks.drop_last().contains(PathTokV::StarIndex) {
        inject_index_spec(toks.drop_last(), index) + seq![toks.last()]
    } else if toks.last() is StarIndex {
        toks.drop_last() + seq![PathTokV::Index(index)]
    } else {
        inject_index_spec(toks.drop_last(), index) + seq![toks.last()]
    }
}

} // verus!
