//! Scalar values, and references to captured collections.

use vstd::prelude::*;

use crate::error::ChainError;
use crate::path::SubjectPath;

verus! {

/// The number of characters in the identity of a stored collection.
pub const IDENTITY_LEN: usize = 64;

/// A reference to a native collection in the value store.
#[derive(Debug)]
pub struct CollectionRef {
    /// The hexadecimal identity under which the collection is stored.
    pub name: String,
    /// The class of the collection.
    pub path: SubjectPath,
    /// The schema of the collection, in its encoded form.
    pub schema: String,
}

/// A scalar, as far as the log distinguishes scalars.
#[derive(Debug)]
pub enum Scalar {
    /// Any scalar but a reference, in its encoded form.
    Literal(String),
    /// A GET reference scoped to an identifier.
    Get(CollectionRef),
    /// Any other reference, in its encoded form.
    Ref(String),
}

impl Clone for CollectionRef {
    fn clone(&self) -> (res: Self)
        ensures
            res == *self,
    {
        CollectionRef {
            name: self.name.clone(),
            path: self.path.clone(),
            schema: self.schema.clone(),
        }
    }
}

impl Clone for Scalar {
    fn clone(&self) -> (res: Self)
        ensures
            res == *self,
    {
        match self {
            Scalar::Literal(text) => Scalar::Literal(text.clone()),
            Scalar::Get(get) => Scalar::Get(get.clone()),
            Scalar::Ref(text) => Scalar::Ref(text.clone()),
        }
    }
}

/// Whether a character is a lower-case hexadecimal digit.
pub open spec fn is_hex(c: char) -> bool {
    ('0' <= c && c <= '9') || ('a' <= c && c <= 'f')
}

/// Whether a name is a hexadecimal SHA-256 identity.
pub open spec fn is_identity(name: Seq<char>) -> bool {
    &&& name.len() == IDENTITY_LEN
    &&& forall|i: int| 0 <= i < name.len() ==> is_hex(#[trigger] name[i])
}

/// Whether a name is a hexadecimal SHA-256 identity.
pub fn check_identity(name: &str) -> (res: bool)
    ensures
        res == is_identity(name@),
{
    if !name.is_ascii() {
        assert(!is_identity(name@)) by {
            if is_identity(name@) {
                assert(vstd::utf8::is_ascii_chars(name@));
            }
        }
        return false;
    }
    proof {
        vstd::string::is_ascii_spec_bytes(name);
    }
    let bytes = name.as_bytes();
    if bytes.len() != IDENTITY_LEN {
        return false;
    }
    let mut i: usize = 0;
    while i < bytes.len()
        invariant
            i <= bytes@.len(),
            bytes@.len() == name@.len(),
            name@.len() == IDENTITY_LEN,
            forall|k: int|
                #![trigger name@[k]]
                0 <= k < name@.len() ==> bytes@[k] as int == name@[k] as int,
            forall|k: int| 0 <= k < i ==> is_hex(#[trigger] name@[k]),
        decreases bytes@.len() - i,
    {
        let b = bytes[i];
        assert(name@[i as int] as int == b as int);
        if !((48 <= b && b <= 57) || (97 <= b && b <= 102)) {
            assert(!is_hex(name@[i as int]));
            return false;
        }
        i += 1;
    }
    true
}

/// The stored collection to which a scalar refers, if it is a reference at all.
///
/// Only GET references scoped to a hexadecimal identity are stored references.
pub open spec fn stored(value: Scalar) -> Result<Option<CollectionRef>, ChainError> {
    match value {
        Scalar::Literal(_) => Ok(None),
        Scalar::Get(get) => if is_identity(get.name@) {
            Ok(Some(get))
        } else {
            Err(ChainError::InvalidReference)
        },
        Scalar::Ref(_) => Err(ChainError::InvalidReference),
    }
}

/// The stored collection to which a scalar refers, if it is a reference at all.
pub fn reference(value: &Scalar) -> (res: Result<Option<&CollectionRef>, ChainError>)
    ensures
        match res {
            Ok(Some(get)) => stored(*value) == Ok::<_, ChainError>(Some(*get)),
            Ok(None) => stored(*value) == Ok::<_, ChainError>(None::<CollectionRef>),
            Err(e) => stored(*value) == Err::<Option<CollectionRef>, _>(e),
        },
{
    match value {
        Scalar::Literal(_) => Ok(None),
        Scalar::Get(get) => if check_identity(get.name.as_str()) {
            Ok(Some(get))
        } else {
            Err(ChainError::InvalidReference)
        },
        Scalar::Ref(_) => Err(ChainError::InvalidReference),
    }
}

/// A lower-case hexadecimal digit.
pub open spec fn hex_digit(n: int) -> char {
    if n < 10 {
        ('0' as int + n) as char
    } else {
        ('a' as int + n - 10) as char
    }
}

/// Bytes in lower-case hexadecimal, two digits each.
pub open spec fn hex(bytes: Seq<u8>) -> Seq<char> {
    Seq::new(
        2 * bytes.len(),
        |i: int|
            hex_digit(
                if i % 2 == 0 {
                    bytes[i / 2] as int / 16
                } else {
                    bytes[i / 2] as int % 16
                },
            ),
    )
}

/// The text of one hexadecimal digit.
fn digit(n: u8) -> (res: &'static str)
    requires
        n < 16,
    ensures
        res@ == seq![hex_digit(n as int)],
{
    proof {
        reveal_strlit("0");
        reveal_strlit("1");
        reveal_strlit("2");
        reveal_strlit("3");
        reveal_strlit("4");
        reveal_strlit("5");
        reveal_strlit("6");
        reveal_strlit("7");
        reveal_strlit("8");
        reveal_strlit("9");
        reveal_strlit("a");
        reveal_strlit("b");
        reveal_strlit("c");
        reveal_strlit("d");
        reveal_strlit("e");
        reveal_strlit("f");
    }
    let text = match n {
        0 => "0",
        1 => "1",
        2 => "2",
        3 => "3",
        4 => "4",
        5 => "5",
        6 => "6",
        7 => "7",
        8 => "8",
        9 => "9",
        10 => "a",
        11 => "b",
        12 => "c",
        13 => "d",
        14 => "e",
        _ => "f",
    };
    assert(text@ =~= seq![hex_digit(n as int)]);
    text
}

/// The name under which a collection of the given SHA-256 hash is stored.
pub fn identity(hash: &[u8]) -> (res: String)
    ensures
        res@ == hex(hash@),
{
    let mut res = String::new();
    let mut i: usize = 0;
    assert(res@ =~= hex(hash@.take(0)));
    while i < hash.len()
        invariant
            i <= hash@.len(),
            res@ == hex(hash@.take(i as int)),
        decreases hash@.len() - i,
    {
        let b = hash[i];
        res.append(digit(b / 16));
        res.append(digit(b % 16));
        assert(res@ =~= hex(hash@.take(i + 1)));
        i += 1;
    }
    assert(hash@.take(hash@.len() as int) =~= hash@);
    res
}

/// The name of a collection is an identity, and different hashes have different names.
pub proof fn law_identity_is_unambiguous(a: Seq<u8>, b: Seq<u8>)
    ensures
        a.len() == 32 ==> is_identity(hex(a)),
        hex(a) == hex(b) ==> a == b,
{
    if a.len() == 32 {
        assert forall|i: int| 0 <= i < hex(a).len() implies is_hex(#[trigger] hex(a)[i]) by {}
    }
    if hex(a) == hex(b) {
        assert(hex(a).len() == hex(b).len());
        assert forall|i: int| 0 <= i < a.len() implies a[i] == b[i] by {
            assert(hex(a)[2 * i] == hex(b)[2 * i]);
            assert(hex(a)[2 * i + 1] == hex(b)[2 * i + 1]);
        }
        assert(a =~= b);
    }
}

} // verus!
