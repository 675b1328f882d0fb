//! Text: UTF-8 conversion and the rules of resource identifiers.
use vstd::prelude::*;

use vstd::string::{StrSliceExecFns, StringExecFns};
use vstd::utf8::{decode_utf8, valid_utf8};

verus! {

/// `String::from_utf8`: succeeds exactly on valid UTF-8, with the characters
/// that the bytes encode.
#[verifier::external_body]
pub(crate) fn string_from_utf8(bytes: Vec<u8>) -> (r: Option<String>)
    ensures
        r is Some <==> valid_utf8(bytes@),
        r matches Some(s) ==> s@ == decode_utf8(bytes@),
{
    String::from_utf8(bytes).ok()
}


/// A character allowed in the namespace of an identifier.
pub open spec fn is_namespace_char(c: char) -> bool {
    c == '_' || c == '-' || ('a' <= c && c <= 'z') || ('0' <= c && c <= '9') || c == '.'
}

/// A character allowed in the path of an identifier.
pub open spec fn is_path_char(c: char) -> bool {
    is_namespace_char(c) || c == '/'
}

/// A namespace: non-empty, of namespace characters only.
pub open spec fn valid_namespace(s: Seq<char>) -> bool {
    s.len() > 0 && forall|i: int| 0 <= i < s.len() ==> is_namespace_char(#[trigger] s[i])
}

/// A path: non-empty, of path characters only.
pub open spec fn valid_path(s: Seq<char>) -> bool {
    s.len() > 0 && forall|i: int| 0 <= i < s.len() ==> is_path_char(#[trigger] s[i])
}

/// Whether `namespace` may be the namespace of an identifier.
pub fn is_valid_namespace(namespace: &str) -> (r: bool)
    ensures
        r == valid_namespace(namespace@),
{
    let n = namespace.unicode_len();
    if n == 0 {
        return false;
    }
    let mut i: usize = 0;
    while i < n
        invariant
            i <= n,
            n == namespace@.len(),
            forall|j: int| 0 <= j < i ==> is_namespace_char(#[trigger] namespace@[j]),
        decreases n - i,
    {
        let c = namespace.get_char(i);
        if !(c == '_' || c == '-' || (c >= 'a' && c <= 'z') || (c >= '0' && c <= '9') || c == '.') {
            return false;
        }
        i = i + 1;
    }
    true
}

/// Whether `path` may be the path of an identifier.
pub fn is_valid_path(path: &str) -> (r: bool)
    ensures
        r == valid_path(path@),
{
    let n = path.unicode_len();
    if n == 0 {
        return false;
    }
    let mut i: usize = 0;
    while i < n
        invariant
            i <= n,
            n == path@.len(),
            forall|j: int| 0 <= j < i ==> is_path_char(#[trigger] path@[j]),
        decreases n - i,
    {
        let c = path.get_char(i);
        if !(c == '_' || c == '-' || (c >= 'a' && c <= 'z') || (c >= '0' && c <= '9') || c == '/'
            || c == '.') {
            return false;
        }
        i = i + 1;
    }
    true
}

/// The position of the first `c` in `s` at or after `i`.
pub open spec fn find_char(s: Seq<char>, c: char, i: nat) -> Option<nat>
    decreases s.len() - i,
{
    if i >= s.len() {
        None
    } else if s[i as int] == c {
        Some(i)
    } else {
        find_char(s, c, i + 1)
    }
}

/// The namespace that an identifier without one is given, with its separator.
pub open spec fn default_namespace_prefix() -> Seq<char> {
    seq!['m', 'i', 'n', 'e', 'c', 'r', 'a', 'f', 't', ':']
}

/// Why text is not an identifier.
#[derive(Clone, Copy, Debug, PartialEq, Eq, Structural)]
pub enum IdentifierErr {
    InvalidNamespace,
    InvalidPath,
}

/// The identifier that text denotes, as its full text and the position of the
/// separator: `namespace:path`, or a bare path in the default namespace.
pub open spec fn identifier_of(s: Seq<char>) -> Result<(Seq<char>, usize), IdentifierErr> {
    match find_char(s, ':', 0) {
        Some(p) => if !valid_namespace(s.take(p as int)) {
            Err(IdentifierErr::InvalidNamespace)
        } else if !valid_path(s.skip((p + 1) as int)) {
            Err(IdentifierErr::InvalidPath)
        } else {
            Ok((s, p as usize))
        },
        None => if !valid_path(s) {
            Err(IdentifierErr::InvalidPath)
        } else {
            Ok((default_namespace_prefix() + s, 9usize))
        },
    }
}

/// A namespaced resource identifier such as `minecraft:stone`.
pub struct Identifier {
    string: String,
    delim: usize,
}

impl View for Identifier {
    type V = (Seq<char>, usize);

    closed spec fn view(&self) -> (Seq<char>, usize) {
        (self.string@, self.delim)
    }
}

impl DeepView for Identifier {
    type V = (Seq<char>, usize);

    open spec fn deep_view(&self) -> (Seq<char>, usize) {
        self@
    }
}

impl Identifier {
    /// Reads an identifier from text.
    pub fn parse(s: &str) -> (r: Result<Identifier, IdentifierErr>)
        ensures
            match identifier_of(s@) {
                Ok(v) => r matches Ok(id) && id@ == v,
                Err(e) => r == Err::<Identifier, IdentifierErr>(e),
            },
    {
        let n = s.unicode_len();
        let mut i: usize = 0;
        while i < n
            invariant
                i <= n,
                n == s@.len(),
                find_char(s@, ':', 0) == find_char(s@, ':', i as nat),
            ensures
                i <= n,
                find_char(s@, ':', 0) == find_char(s@, ':', i as nat),
                i < n ==> s@[i as int] == ':',
            decreases n - i,
        {
            if s.get_char(i) == ':' {
                break;
            }
            i = i + 1;
        }
        if i < n {
            assert(find_char(s@, ':', 0) == Some(i as nat));
            let namespace = s.substring_char(0, i);
            let path = s.substring_char(i + 1, n);
            assert(namespace@ =~= s@.take(i as int));
            assert(path@ =~= s@.skip(i + 1));
            if !is_valid_namespace(namespace) {
                return Err(IdentifierErr::InvalidNamespace);
            }
            if !is_valid_path(path) {
                return Err(IdentifierErr::InvalidPath);
            }
            Ok(Identifier { string: String::from_str(s), delim: i })
        } else {
            assert(find_char(s@, ':', 0) == None::<nat>);
            if !is_valid_path(s) {
                return Err(IdentifierErr::InvalidPath);
            }
            let mut string = String::from_str("minecraft:");
            proof {
                reveal_strlit("minecraft:");
                assert("minecraft:"@ =~= default_namespace_prefix());
            }
            string.append(s);
            Ok(Identifier { string, delim: 9 })
        }
    }

    /// The full text, `namespace:path`.
    pub fn string_ref(&self) -> (r: &String)
        ensures
            r@ == self@.0,
    {
        &self.string
    }

    /// The position of the separator.
    pub fn delim(&self) -> (r: usize)
        ensures
            r == self@.1,
    {
        self.delim
    }
}

} // verus!
