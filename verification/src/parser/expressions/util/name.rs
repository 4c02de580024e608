use vstd::prelude::*;
use vstd::string::{StringExecFns, StringSliceAdditionalSpecFns};
use vstd::utf8::{decode_utf8, encode_utf8};

use crate::text::{lemma_encode_concat, same_text};

verus! {

/// An identifier name in the language defined by the user. These get converted into different
/// identifiers when transpiled to C to avoid name clashing: `c_name` gives the C version and
/// `cabin_name` the name as written in Cabin.
#[derive(Debug, Clone, PartialEq, Eq, PartialOrd, Ord, Hash)]
pub struct Name(pub String);

/// The text of a name as it is transpiled to C: `Void` becomes `void`, `unique` becomes `int`,
/// and every other name gets the suffix `_u`.
pub open spec fn c_name_text(name: Seq<char>) -> Seq<char> {
    if name == seq!['V', 'o', 'i', 'd'] {
        seq!['v', 'o', 'i', 'd']
    } else if name == seq!['u', 'n', 'i', 'q', 'u', 'e'] {
        seq!['i', 'n', 't']
    } else {
        name + seq!['_', 'u']
    }
}

/// The text that `from_c` recovers from a C name: its UTF-8 encoding without the last two bytes.
pub open spec fn from_c_text(c: Seq<char>) -> Seq<char> {
    decode_utf8(encode_utf8(c).subrange(0, encode_utf8(c).len() - 2))
}

impl Name {
    /// The name as a unique C identifier, used when transpiling Cabin code into C.
    pub fn c_name(&self) -> (res: String)
        ensures
            res@ == c_name_text(self.0@),
    {
        proof {
            reveal_strlit("Void");
            reveal_strlit("void");
            reveal_strlit("unique");
            reveal_strlit("int");
            reveal_strlit("_u");
            assert("Void"@ =~= seq!['V', 'o', 'i', 'd']);
            assert("void"@ =~= seq!['v', 'o', 'i', 'd']);
            assert("unique"@ =~= seq!['u', 'n', 'i', 'q', 'u', 'e']);
            assert("int"@ =~= seq!['i', 'n', 't']);
            assert("_u"@ =~= seq!['_', 'u']);
        }
        if same_text(self.0.as_str(), "Void") {
            "void".to_owned()
        } else if same_text(self.0.as_str(), "unique") {
            "int".to_owned()
        } else {
            let mut res = self.0.clone();
            res.append("_u");
            res
        }
    }

    /// The name as written in the Cabin source code.
    pub fn cabin_name(&self) -> (res: String)
        ensures
            res@ == self.0@,
    {
        self.0.clone()
    }

    /// Creates a name from its C representation by dropping the last two bytes, the `_u` suffix.
    pub fn from_c(c: &str) -> (res: Name)
        requires
            c.spec_bytes().len() >= 2,
            vstd::utf8::is_char_boundary(c.spec_bytes(), c.spec_bytes().len() - 2),
        ensures
            res.0@ == from_c_text(c@),
    {
        let length = c.as_bytes().len();
        let (head, _tail) = c.split_at(length - 2);
        proof {
            vstd::utf8::encode_utf8_decode_utf8(head@);
            assert(head.spec_bytes() =~= encode_utf8(c@).subrange(0, encode_utf8(c@).len() - 2));
        }
        Name(head.to_owned())
    }
}

/// Converting a name to C and back gives the name again, for every name but `Void` and
/// `unique`, which C spells as keywords.
pub proof fn law_from_c_undoes_c_name(name: Seq<char>)
    requires
        name != seq!['V', 'o', 'i', 'd'],
        name != seq!['u', 'n', 'i', 'q', 'u', 'e'],
    ensures
        from_c_text(c_name_text(name)) == name,
{
    let suffix = seq!['_', 'u'];
    lemma_encode_concat(name, suffix);
    let e = encode_utf8(name);
    let s = encode_utf8(suffix);
    reveal_with_fuel(encode_utf8, 3);
    assert(s.len() == 2);
    assert((e + s).subrange(0, (e + s).len() - 2) =~= e);
    vstd::utf8::encode_utf8_decode_utf8(name);
}

} // verus!
