//! Syntactic validation of idempotency keys: non-empty, ASCII letters,
//! digits and hyphens only, at most `MAX_KEY_LEN` characters. Validation
//! runs before any storage access; a violation is a client error.

use vstd::prelude::*;
use crate::errors::KeyRejection;

verus! {

/// Longest accepted idempotency key, in characters.
pub const MAX_KEY_LEN: usize = 50;

/// The characters an idempotency key may contain.
pub open spec fn is_key_char(c: char) -> bool {
    ||| 'a' <= c && c <= 'z'
    ||| 'A' <= c && c <= 'Z'
    ||| '0' <= c && c <= '9'
    ||| c == '-'
}

/// A well-formed key is non-empty, at most `MAX_KEY_LEN` characters long,
/// and made of key characters only.
pub open spec fn spec_key_valid(s: Seq<char>) -> bool {
    &&& 1 <= s.len() <= MAX_KEY_LEN
    &&& forall|i: int| 0 <= i < s.len() ==> is_key_char(#[trigger] s[i])
}

/// The rejection reported for an invalid key: emptiness first, then a
/// forbidden character, then excessive length.
pub open spec fn spec_key_rejection(s: Seq<char>) -> KeyRejection {
    if s.len() == 0 {
        KeyRejection::Empty
    } else if exists|i: int| 0 <= i < s.len() && !is_key_char(#[trigger] s[i]) {
        KeyRejection::ForbiddenChar
    } else {
        KeyRejection::TooLong
    }
}

/// A client-supplied idempotency key that passed syntactic validation.
/// Its view is the key's character sequence.
pub struct IdempotencyKey {
    key: String,
}

impl View for IdempotencyKey {
    type V = Seq<char>;

    closed spec fn view(&self) -> Seq<char> {
        self.key@
    }
}

impl IdempotencyKey {
    /// Every key value that exists passed validation; exec callers recover
    /// this with `use_type_invariant`.
    #[verifier::type_invariant]
    pub open spec fn wf(self) -> bool {
        spec_key_valid(self@)
    }

    /// Validates `s` as an idempotency key. Accepts exactly the well-formed
    /// keys and reports why the others are rejected.
    pub fn try_new(s: String) -> (r: Result<IdempotencyKey, KeyRejection>)
        ensures
            r is Ok <==> spec_key_valid(s@),
            r matches Ok(k) ==> k@ == s@,
            r matches Err(e) ==> e == spec_key_rejection(s@),
    {
        let st: &str = s.as_str();
        if st.is_empty() {
            return Err(KeyRejection::Empty);
        }
        if !st.is_ascii() {
            proof {
                let j = choose|j: int|
                    0 <= j < s@.len() && !('\0' <= #[trigger] s@[j] <= '\u{7f}');
                assert(!is_key_char(s@[j]));
            }
            return Err(KeyRejection::ForbiddenChar);
        }
        proof {
            vstd::string::is_ascii_spec_bytes(st);
        }
        let bytes: &[u8] = st.as_bytes();
        let n = bytes.len();
        let mut i: usize = 0;
        while i < n
            invariant
                0 <= i <= n,
                n == s@.len(),
                bytes@ =~= Seq::new(s@.len(), |j: int| s@[j] as u8),
                vstd::utf8::is_ascii_chars(s@),
                forall|j: int| 0 <= j < i ==> is_key_char(#[trigger] s@[j]),
            decreases n - i,
        {
            let b = bytes[i];
            let ok = (b >= 97 && b <= 122) || (b >= 65 && b <= 90) || (b >= 48 && b <= 57)
                || b == 45;
            proof {
                assert(s@[i as int] as u8 == b);
                assert('\0' <= s@[i as int] <= '\u{7f}');
                assert(ok == is_key_char(s@[i as int]));
            }
            if !ok {
                return Err(KeyRejection::ForbiddenChar);
            }
            i += 1;
        }
        if n > MAX_KEY_LEN {
            return Err(KeyRejection::TooLong);
        }
        Ok(IdempotencyKey { key: s })
    }

    /// The key's text.
    pub fn as_str(&self) -> (r: &str)
        ensures
            r@ == self@,
    {
        &self.key
    }

    /// Whether two keys are the same key text.
    pub fn same_key(&self, other: &IdempotencyKey) -> (r: bool)
        ensures
            r == (self@ == other@),
    {
        self.key == other.key
    }

    /// An owned copy of the same key.
    pub fn duplicate(&self) -> (r: IdempotencyKey)
        ensures
            r@ == self@,
    {
        proof {
            use_type_invariant(self);
        }
        IdempotencyKey { key: self.key.clone() }
    }
}

} // verus!
