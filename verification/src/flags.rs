//! Switches that are set in the environment.

use crate::text::{
    ascii_lower, eq_ignore_ascii_case, law_case_of_a_letter, same_but_for_ascii_case, same_text,
};
use vstd::prelude::*;

verus! {

/// A variable switches its feature on if it is there and neither `0` nor `false`, whatever
/// the case of the letters.
pub open spec fn flag_set(value: Option<Seq<char>>) -> bool {
    value matches Some(v) && v != "0"@ && !same_but_for_ascii_case(v, "false"@)
}

/// The text of a variable, where it is there.
pub open spec fn variable_text(value: Option<&str>) -> Option<Seq<char>> {
    match value {
        Some(v) => Some(v@),
        None => None,
    }
}

/// Whether the variable with this value switches its feature on.
pub fn env_flag(value: Option<&str>) -> (r: bool)
    ensures
        r == flag_set(variable_text(value)),
        value is None ==> !r,
        value matches Some(v) ==> r == (v@ != "0"@ && !same_but_for_ascii_case(v@, "false"@)),
{
    match value {
        Some(v) => !same_text(v, "0") && !eq_ignore_ascii_case(v, "false"),
        None => false,
    }
}

/// Whether to synchronize after each dispatch of a routed product of a mixture of experts:
/// on, unless `TRACT_METAL_MOE_UNSAFE_NOSYNC`, whose value is given, switches it off.
pub fn moe_sync_after_dispatch(unsafe_nosync: Option<&str>) -> (r: bool)
    ensures
        r == !flag_set(variable_text(unsafe_nosync)),
        unsafe_nosync is None ==> r,
{
    !env_flag(unsafe_nosync)
}

/// A variable switches its feature off exactly if it is not there, or is `0`, or is `false` in
/// letters of whichever case.
pub proof fn law_what_switches_off(value: Option<Seq<char>>)
    ensures
        flag_set(value) == !(match value {
            None => true,
            Some(v) => (v.len() == 1 && v[0] == '0') || (v.len() == 5 && (v[0] == 'f' || v[0] == 'F')
                && (v[1] == 'a' || v[1] == 'A') && (v[2] == 'l' || v[2] == 'L') && (v[3] == 's'
                || v[3] == 'S') && (v[4] == 'e' || v[4] == 'E')),
        }),
{
    reveal_strlit("0");
    reveal_strlit("false");
    if let Some(v) = value {
        assert((v == "0"@) == (v.len() == 1 && v[0] == '0')) by {
            if v.len() == 1 && v[0] == '0' {
                assert(v =~= "0"@);
            }
        }
        let f = "false"@;
        assert(f.len() == 5 && f[0] == 'f' && f[1] == 'a' && f[2] == 'l' && f[3] == 's' && f[4]
            == 'e');
        if v.len() == 5 {
            law_case_of_a_letter(v[0], 'f');
            law_case_of_a_letter(v[1], 'a');
            law_case_of_a_letter(v[2], 'l');
            law_case_of_a_letter(v[3], 's');
            law_case_of_a_letter(v[4], 'e');
            if same_but_for_ascii_case(v, f) {
                assert(ascii_lower(v[0]) == ascii_lower(f[0]));
                assert(ascii_lower(v[1]) == ascii_lower(f[1]));
                assert(ascii_lower(v[2]) == ascii_lower(f[2]));
                assert(ascii_lower(v[3]) == ascii_lower(f[3]));
                assert(ascii_lower(v[4]) == ascii_lower(f[4]));
            } else {
                let i = choose|i: int|
                    0 <= i < v.len() && ascii_lower(#[trigger] v[i]) != ascii_lower(f[i]);
                assert(i == 0 || i == 1 || i == 2 || i == 3 || i == 4);
            }
        }
    }
}

} // verus!
