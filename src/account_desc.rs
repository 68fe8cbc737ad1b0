use vstd::prelude::*;
use vstd::string::StringSliceAdditionalSpecFns;

use crate::error::Error;

verus! {

/// The digit at position `i`, as a number
pub open spec fn digit_at(s: Seq<u8>, i: int) -> int {
    s[i] - 48
}

/// `s` is a sort code written `dd-dd-dd`
pub open spec fn sort_code_text(s: Seq<u8>) -> bool {
    &&& s.len() == 8
    &&& s[2] == 45 && s[5] == 45
    &&& forall|i: int| 0 <= i < 8 && i != 2 && i != 5 ==> 48 <= #[trigger] s[i] <= 57
}

/// The sort code that the text `dd-dd-dd` spells, as one number
pub open spec fn sort_code_value(s: Seq<u8>) -> int {
    (digit_at(s, 0) * 10 + digit_at(s, 1)) * 10000 + (digit_at(s, 3) * 10 + digit_at(s, 4)) * 100
        + digit_at(s, 6) * 10 + digit_at(s, 7)
}

/// The bank's description of an account
#[derive(Debug, Default, Clone, Copy, Hash, PartialEq, Eq, Structural)]
pub enum AccountDesc {
    #[default]
    Unknown,
    Uk { sort_code: u32, account: usize },
}

impl AccountDesc {
    /// A UK account with a sort code and account number
    pub fn uk(sort_code: u32, account: usize) -> (r: Self)
        ensures
            r == (AccountDesc::Uk { sort_code, account }),
    {
        AccountDesc::Uk { sort_code, account }
    }

    /// A UK account whose sort code is written `dd-dd-dd`
    pub fn parse_uk(sc_str: &str, account: usize) -> (r: Result<Self, Error>)
        ensures
            r is Ok == sort_code_text(sc_str.spec_bytes()),
            r is Ok ==> r == Ok::<Self, Error>(
                AccountDesc::Uk { sort_code: sort_code_value(sc_str.spec_bytes()) as u32, account },
            ),
            r is Err ==> r->Err_0 is ParseAccount,
    {
        let b = sc_str.as_bytes();
        if b.len() != 8 || b[2] != 45 || b[5] != 45 {
            return Err(Error::ParseAccount(sc_str.to_owned()));
        }
        let mut i: usize = 0;
        while i < 8
            invariant
                i <= 8,
                b@.len() == 8,
                b@ == sc_str.spec_bytes(),
                forall|k: int| 0 <= k < i && k != 2 && k != 5 ==> 48 <= #[trigger] b@[k] <= 57,
            decreases 8 - i,
        {
            if i != 2 && i != 5 && (b[i] < 48 || b[i] > 57) {
                assert(!(48 <= b@[i as int] <= 57));
                return Err(Error::ParseAccount(sc_str.to_owned()));
            }
            i += 1;
        }
        assert(b@ == sc_str.spec_bytes());
        let d = |k: usize| -> (v: u32)
            requires
                k < 8,
                k != 2 && k != 5,
            ensures
                v == b@[k as int] - 48,
                v <= 9,
            { (b[k] - 48) as u32 };
        let sort_code = (d(0) * 10 + d(1)) * 10000 + (d(3) * 10 + d(4)) * 100 + d(6) * 10 + d(7);
        Ok(AccountDesc::Uk { sort_code, account })
    }
}

} // verus!
