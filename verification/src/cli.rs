//! The two rules of the command line that do not touch a file: which
//! definitions are accepted, and what the cabinet is called when no name is
//! given for it.

use vstd::prelude::*;
use vstd::utf8::is_continuation_byte;

verus! {

/// The one definition that the command line accepts, in ASCII:
/// `CompressionType=MSZIP`.
pub open spec fn supported_define() -> Seq<u8> {
    seq![
        0x43u8, 0x6fu8, 0x6du8, 0x70u8, 0x72u8, 0x65u8, 0x73u8, 0x73u8, 0x69u8, 0x6fu8, 0x6eu8,
        0x54u8, 0x79u8, 0x70u8, 0x65u8, 0x3du8, 0x4du8, 0x53u8, 0x5au8, 0x49u8, 0x50u8,
    ]
}

/// Whether `define`, the value of a `-D` option, is supported: only
/// `CompressionType=MSZIP` is.
pub fn define_is_supported(define: &[u8]) -> (supported: bool)
    ensures
        supported == (define@ == supported_define()),
{
    let expected: [u8; 21] = [
        0x43, 0x6f, 0x6d, 0x70, 0x72, 0x65, 0x73, 0x73, 0x69, 0x6f, 0x6e, 0x54, 0x79, 0x70, 0x65,
        0x3d, 0x4d, 0x53, 0x5a, 0x49, 0x50,
    ];
    assert(expected@ =~= supported_define());
    if define.len() != 21 {
        return false;
    }
    let mut i: usize = 0;
    while i < 21
        invariant
            i <= 21,
            define@.len() == 21,
            expected@ == supported_define(),
            forall|j: int| 0 <= j < i ==> define@[j] == expected@[j],
        decreases 21 - i,
    {
        if define[i] != expected[i] {
            return false;
        }
        i += 1;
    }
    assert(define@ =~= supported_define());
    true
}

/// The byte `_`.
pub const UNDERSCORE: u8 = 0x5f;

/// What is left of `name`, text in UTF-8, when its last character is taken
/// away: the bytes before the last byte that does not continue a character.
/// There is none where `name` has no character: where it is empty, or holds
/// nothing but bytes that continue a character.
pub open spec fn without_last_character(name: Seq<u8>) -> Option<Seq<u8>>
    decreases name.len(),
{
    if name.len() == 0 {
        None
    } else if is_continuation_byte(name.last()) {
        without_last_character(name.drop_last())
    } else {
        Some(name.drop_last())
    }
}

/// The name that a cabinet gets when none is given: the name of the source
/// with its final character replaced by an underscore; `None` where the name
/// has no character.
pub fn default_destination(name: &[u8]) -> (destination: Option<Vec<u8>>)
    ensures
        match without_last_character(name@) {
            Some(stem) => destination matches Some(made) && made@ == stem + seq![UNDERSCORE],
            None => destination is None,
        },
{
    let mut at: usize = name.len();
    assert(name@.subrange(0, at as int) =~= name@);
    while at > 0
        invariant
            at <= name@.len(),
            without_last_character(name@) == without_last_character(name@.subrange(0, at as int)),
        decreases at,
    {
        let ghost rest = name@.subrange(0, at as int);
        at -= 1;
        let byte: u8 = name[at];
        assert(rest.last() == byte);
        assert(rest.drop_last() =~= name@.subrange(0, at as int));
        if byte < 0x80 || byte > 0xbf {
            let mut made: Vec<u8> = Vec::new();
            made.extend_from_slice(vstd::slice::slice_subrange(name, 0, at));
            made.push(UNDERSCORE);
            assert(made@ =~= name@.subrange(0, at as int) + seq![UNDERSCORE]);
            return Some(made);
        }
    }
    assert(name@.subrange(0, 0) =~= Seq::<u8>::empty());
    None
}

} // verus!
