use vstd::prelude::*;

verus! {

/// The type of a DNS query or record. Codes that the library does not know
/// are kept as they are.
#[derive(PartialEq, Eq, Structural, Debug, Clone, Copy, Hash)]
pub enum QueryType {
    UNKNOWN(u16),
    A,
    NS,
    CNAME,
    MX,
    AAAA,
}

impl QueryType {
    /// The numeric code of a query type.
    pub open spec fn code(self) -> u16 {
        match self {
            QueryType::UNKNOWN(x) => x,
            QueryType::A => 1,
            QueryType::NS => 2,
            QueryType::CNAME => 5,
            QueryType::MX => 15,
            QueryType::AAAA => 28,
        }
    }

    /// The query type that a numeric code stands for.
    pub open spec fn of_code(num: u16) -> QueryType {
        if num == 1 {
            QueryType::A
        } else if num == 2 {
            QueryType::NS
        } else if num == 5 {
            QueryType::CNAME
        } else if num == 15 {
            QueryType::MX
        } else if num == 28 {
            QueryType::AAAA
        } else {
            QueryType::UNKNOWN(num)
        }
    }

    /// A query type is canonical when it is not an `UNKNOWN` that carries the
    /// code of a known type.
    pub open spec fn canonical(self) -> bool {
        QueryType::of_code(self.code()) == self
    }

    pub fn to_num(&self) -> (num: u16)
        ensures
            num == self.code(),
    {
        match *self {
            QueryType::UNKNOWN(x) => x,
            QueryType::A => 1,
            QueryType::NS => 2,
            QueryType::CNAME => 5,
            QueryType::MX => 15,
            QueryType::AAAA => 28,
        }
    }

    pub fn from_num(num: u16) -> (qtype: QueryType)
        ensures
            qtype == QueryType::of_code(num),
    {
        match num {
            1 => QueryType::A,
            2 => QueryType::NS,
            5 => QueryType::CNAME,
            15 => QueryType::MX,
            28 => QueryType::AAAA,
            _ => QueryType::UNKNOWN(num),
        }
    }

    /// Every numeric code survives a trip through `from_num` and `to_num`.
    pub proof fn lemma_code_round_trip(num: u16)
        ensures
            QueryType::of_code(num).code() == num,
            QueryType::of_code(num).canonical(),
    {
    }
}

} // verus!
