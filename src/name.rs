use vstd::prelude::*;

verus! {

/// A character allowed in an extension name: `a`-`z`, `0`-`9` or `_`.
pub open spec fn is_name_char(c: char) -> bool {
    ('a' <= c && c <= 'z') || ('0' <= c && c <= '9') || c == '_'
}

/// Every character of `s` is allowed in an extension name.
pub open spec fn is_valid_name(s: Seq<char>) -> bool {
    forall|i: int| 0 <= i < s.len() ==> #[trigger] is_name_char(s[i])
}

/// The name of an extension holds a character outside `[a-z0-9_]`.
#[derive(Debug, Clone, Copy, PartialEq, Eq)]
pub struct NameError;

impl NameError {
    /// The message shown to the user.
    pub fn message(&self) -> (r: String)
        ensures
            r@ == "Extension name must be in the set of [a-z0-9_]"@,
    {
        String::from_str("Extension name must be in the set of [a-z0-9_]")
    }
}

/// Accepts a name made of `[a-z0-9_]` only; any other character, an
/// uppercase letter included, rejects it.
pub fn validate_extension_name(extname: &str) -> (r: Result<(), NameError>)
    ensures
        r is Ok <==> is_valid_name(extname@),
{
    let n = extname.unicode_len();
    let mut i: usize = 0;
    while i < n
        invariant
            n == extname@.len(),
            i <= n,
            forall|j: int| 0 <= j < i ==> #[trigger] is_name_char(extname@[j]),
        decreases n - i,
    {
        let c = extname.get_char(i);
        if !(('a' <= c && c <= 'z') || ('0' <= c && c <= '9') || c == '_') {
            assert(!is_name_char(extname@[i as int]));
            return Err(NameError);
        }
        i = i + 1;
    }
    Ok(())
}

} // verus!
