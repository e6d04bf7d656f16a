use vstd::prelude::*;

verus! {

/// The response code of a DNS header.
#[derive(PartialEq, Eq, Structural, Debug, Clone, Copy)]
pub enum ResultCode {
    NOERROR,
    FORMERR,
    SERVFAIL,
    NXDOMAIN,
    NOTIMP,
    REFUSED,
}

impl ResultCode {
    /// The four-bit number that stands for a response code on the wire.
    pub open spec fn code(self) -> u8 {
        match self {
            ResultCode::NOERROR => 0,
            ResultCode::FORMERR => 1,
            ResultCode::SERVFAIL => 2,
            ResultCode::NXDOMAIN => 3,
            ResultCode::NOTIMP => 4,
            ResultCode::REFUSED => 5,
        }
    }

    /// The response code that a number stands for; numbers without a meaning
    /// here read as `NOERROR`.
    pub open spec fn of_code(num: u8) -> ResultCode {
        if num == 1 {
            ResultCode::FORMERR
        } else if num == 2 {
            ResultCode::SERVFAIL
        } else if num == 3 {
            ResultCode::NXDOMAIN
        } else if num == 4 {
            ResultCode::NOTIMP
        } else if num == 5 {
            ResultCode::REFUSED
        } else {
            ResultCode::NOERROR
        }
    }

    pub fn to_num(&self) -> (num: u8)
        ensures
            num == self.code(),
            num < 16,
    {
        match *self {
            ResultCode::NOERROR => 0,
            ResultCode::FORMERR => 1,
            ResultCode::SERVFAIL => 2,
            ResultCode::NXDOMAIN => 3,
            ResultCode::NOTIMP => 4,
            ResultCode::REFUSED => 5,
        }
    }

    pub fn from_num(num: u8) -> (code: ResultCode)
        ensures
            code == ResultCode::of_code(num),
    {
        match num {
            1 => ResultCode::FORMERR,
            2 => ResultCode::SERVFAIL,
            3 => ResultCode::NXDOMAIN,
            4 => ResultCode::NOTIMP,
            5 => ResultCode::REFUSED,
            _ => ResultCode::NOERROR,
        }
    }

    /// A response code survives a trip through `to_num` and `from_num`.
    pub proof fn lemma_code_round_trip(code: ResultCode)
        ensures
            ResultCode::of_code(code.code()) == code,
    {
    }
}

} // verus!
