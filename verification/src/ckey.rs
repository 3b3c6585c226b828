//! Ckeys: normalized internal account identifiers.
//!
//! A raw identifier entered by a user is normalized by keeping only the
//! ASCII letters and digits and lowercasing the letters.  Normalization
//! is total (defined for every string) and idempotent.

use vstd::prelude::*;

verus! {

/// A character that survives normalization: an ASCII letter or digit.
pub open spec fn is_ckey_source_char(c: char) -> bool {
    (48 <= c as u32 && c as u32 <= 57)  // '0' ..= '9'
    || (65 <= c as u32 && c as u32 <= 90)  // 'A' ..= 'Z'
    || (97 <= c as u32 && c as u32 <= 122)  // 'a' ..= 'z'
}

/// An ASCII uppercase letter.
pub open spec fn is_ascii_upper(c: char) -> bool {
    65 <= c as u32 && c as u32 <= 90
}

/// The lowercase form of a character; everything but an ASCII uppercase
/// letter is left alone.
pub open spec fn to_lower_char(c: char) -> char {
    if is_ascii_upper(c) {
        (((c as u32) + 32) as u8) as char
    } else {
        c
    }
}

/// A character that can appear in a normalized ckey: an ASCII digit or
/// lowercase letter.
pub open spec fn is_ckey_char(c: char) -> bool {
    (48 <= c as u32 && c as u32 <= 57) || (97 <= c as u32 && c as u32 <= 122)
}

/// The normal form of a raw identifier: ASCII letters and digits are
/// kept, lowercased, in order; every other character is dropped.
pub open spec fn normalize(s: Seq<char>) -> Seq<char>
    decreases s.len(),
{
    if s.len() == 0 {
        Seq::empty()
    } else {
        normalize(s.drop_last()) + if is_ckey_source_char(s.last()) {
            seq![to_lower_char(s.last())]
        } else {
            Seq::<char>::empty()
        }
    }
}

/// A string made only of normalized ckey characters.
pub open spec fn is_normal(s: Seq<char>) -> bool {
    forall|i: int| 0 <= i < s.len() ==> is_ckey_char(#[trigger] s[i])
}

/// Every character of a normal form is an ASCII digit or lowercase letter.
pub proof fn lemma_normalize_is_normal(s: Seq<char>)
    ensures
        is_normal(normalize(s)),
    decreases s.len(),
{
    if s.len() > 0 {
        lemma_normalize_is_normal(s.drop_last());
    }
}

/// A string already in normal form is left unchanged by normalization.
pub proof fn lemma_normalize_of_normal(s: Seq<char>)
    requires
        is_normal(s),
    ensures
        normalize(s) == s,
    decreases s.len(),
{
    if s.len() > 0 {
        assert(is_normal(s.drop_last()));
        lemma_normalize_of_normal(s.drop_last());
        assert(normalize(s) =~= s);
    } else {
        assert(normalize(s) =~= s);
    }
}

/// Normalization is idempotent: normalizing a second time changes nothing.
pub proof fn lemma_normalize_idempotent(s: Seq<char>)
    ensures
        normalize(normalize(s)) == normalize(s),
{
    lemma_normalize_is_normal(s);
    lemma_normalize_of_normal(normalize(s));
}

/// Relies on String::push: appends exactly the given character.
#[verifier::external_body]
pub(crate) fn push_char(s: &mut String, c: char)
    ensures
        final(s)@ == old(s)@.push(c),
{
    s.push(c);
}

/// Normalizes a raw identifier: keeps ASCII letters and digits,
/// lowercases the letters, drops everything else.
pub fn filter_ckey(key: &str) -> (r: String)
    ensures
        r@ == normalize(key@),
{
    let n: usize = key.unicode_len();
    let mut out = String::new();
    let mut i: usize = 0;
    while i < n
        invariant
            i <= n,
            n == key@.len(),
            out@ == normalize(key@.subrange(0, i as int)),
        decreases n - i,
    {
        let c = key.get_char(i);
        let u: u32 = c as u32;
        if (48 <= u && u <= 57) || (97 <= u && u <= 122) {
            push_char(&mut out, c);
        } else if 65 <= u && u <= 90 {
            let lc: char = ((u + 32) as u8) as char;
            push_char(&mut out, lc);
        }
        proof {
            let pre = key@.subrange(0, i as int);
            let cur = key@.subrange(0, i + 1);
            assert(cur.drop_last() =~= pre);
            assert(cur.last() == c);
        }
        i += 1;
    }
    proof {
        assert(key@.subrange(0, n as int) =~= key@);
    }
    out
}

/// A normalized internal account identifier.
#[derive(Debug)]
pub struct Ckey(String);

impl View for Ckey {
    type V = Seq<char>;

    closed spec fn view(&self) -> Seq<char> {
        self.0@
    }
}

impl Ckey {
    /// A ckey always holds a string in normal form.
    #[verifier::type_invariant]
    pub closed spec fn wf(self) -> bool {
        is_normal(self.0@)
    }

    /// Builds a ckey by normalizing a raw identifier.
    pub fn new(raw: &str) -> (r: Ckey)
        ensures
            r@ == normalize(raw@),
    {
        let key = filter_ckey(raw);
        proof {
            lemma_normalize_is_normal(raw@);
        }
        Ckey(key)
    }

    /// The normalized identifier itself.
    pub fn as_str(&self) -> (r: &str)
        ensures
            r@ == self@,
            is_normal(self@),
    {
        proof {
            use_type_invariant(self);
        }
        self.0.as_str()
    }
}

} // verus!
