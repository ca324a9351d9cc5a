//! The version policy: which engine versions write the order flags in two bytes.

use vstd::prelude::*;
use vstd::string::StringSliceAdditionalSpecFns;
use vstd::utf8::encode_utf8;
use crate::strings::same_text;

verus! {

/// The version string of a build in development.
pub open spec fn dev_version() -> Seq<char> {
    "{{DEV_VERSION}}"@
}

/// The last release that wrote the order flags in one byte.
pub open spec fn last_release_with_byte_for_flags() -> Seq<char> {
    "release-20200503"@
}

/// Whether `a` comes after `b` in the order of the dictionary, byte by byte.
pub open spec fn lex_greater(a: Seq<u8>, b: Seq<u8>) -> bool
    decreases a.len(),
{
    if a.len() == 0 {
        false
    } else if b.len() == 0 {
        true
    } else if a[0] != b[0] {
        a[0] > b[0]
    } else {
        lex_greater(a.drop_first(), b.drop_first())
    }
}

/// Whether a recording of engine version `version` holds order flags of two
/// bytes: a build in development does, and so does every version whose UTF-8
/// bytes come after those of the last release that wrote one byte.
pub open spec fn wide_flags(version: Seq<char>) -> bool {
    version == dev_version() || lex_greater(
        encode_utf8(version),
        encode_utf8(last_release_with_byte_for_flags()),
    )
}

/// Whether `a` comes after `b` in the order of the dictionary.
pub fn bytes_greater(a: &[u8], b: &[u8]) -> (greater: bool)
    ensures
        greater == lex_greater(a@, b@),
{
    let mut i: usize = 0;
    assert(a@.skip(0) == a@ && b@.skip(0) == b@);
    while i < a.len() && i < b.len()
        invariant
            i <= a.len(),
            i <= b.len(),
            lex_greater(a@, b@) == lex_greater(a@.skip(i as int), b@.skip(i as int)),
        decreases a.len() - i,
    {
        if a[i] != b[i] {
            return a[i] > b[i];
        }
        assert(a@.skip(i as int).drop_first() == a@.skip(i + 1));
        assert(b@.skip(i as int).drop_first() == b@.skip(i + 1));
        i = i + 1;
    }
    i < a.len()
}

/// Whether a recording of engine version `version` holds order flags of two bytes
/// rather than one.
pub fn flags_are_short(version: &str) -> (short: bool)
    ensures
        short == wide_flags(version@),
{
    same_text(version, "{{DEV_VERSION}}") || bytes_greater(
        version.as_bytes(),
        "release-20200503".as_bytes(),
    )
}

proof fn lemma_not_greater_than_itself(a: Seq<u8>)
    ensures
        !lex_greater(a, a),
    decreases a.len(),
{
    if a.len() > 0 {
        lemma_not_greater_than_itself(a.drop_first());
    }
}

/// The last release that wrote one byte still has flags of one byte, and every
/// version that comes after it in the order of the dictionary has flags of two.
pub proof fn lemma_version_boundary(version: Seq<char>)
    ensures
        version == last_release_with_byte_for_flags() ==> !wide_flags(version),
        lex_greater(encode_utf8(version), encode_utf8(last_release_with_byte_for_flags()))
            ==> wide_flags(version),
{
    reveal_strlit("{{DEV_VERSION}}");
    reveal_strlit("release-20200503");
    lemma_not_greater_than_itself(encode_utf8(last_release_with_byte_for_flags()));
}

} // verus!
