//! Choosing a free TCP port in a range.
use vstd::prelude::*;

verus! {

/// Why no port could be chosen.
#[derive(Debug, Clone, Copy, PartialEq, Eq, Structural)]
pub enum PortError {
    /// The start of the range lies after its end.
    InvalidRange,
    /// No port of the range could be bound.
    NoFreePort,
}

/// The ports to try, in order: `start` to `end` inclusive; a range whose
/// start lies after its end is refused.
pub fn port_candidates(start: u16, end: u16) -> (res: Result<Vec<u16>, PortError>)
    ensures
        start > end ==> res == Err::<Vec<u16>, PortError>(PortError::InvalidRange),
        start <= end ==> (res matches Ok(v) && v@ == Seq::new(
            (end - start + 1) as nat,
            |i: int| (start + i) as u16,
        )),
{
    if start > end {
        return Err(PortError::InvalidRange);
    }
    let mut v: Vec<u16> = Vec::new();
    let mut p: u16 = start;
    loop
        invariant
            start <= p <= end,
            v@ == Seq::new((p - start) as nat, |i: int| (start + i) as u16),
        decreases end - p,
    {
        v.push(p);
        if p == end {
            assert(v@ =~= Seq::new((end - start + 1) as nat, |i: int| (start + i) as u16));
            return Ok(v);
        }
        assert(v@ =~= Seq::new((p + 1 - start) as nat, |i: int| (start + i) as u16));
        p = p + 1;
    }
}

/// The first port that could be bound, or an error when none could.
pub fn first_free_port(available: &Vec<u16>) -> (res: Result<u16, PortError>)
    ensures
        available@.len() == 0 ==> res == Err::<u16, PortError>(PortError::NoFreePort),
        available@.len() > 0 ==> res == Ok::<u16, PortError>(available@[0]),
{
    if available.len() == 0 {
        Err(PortError::NoFreePort)
    } else {
        Ok(available[0])
    }
}

} // verus!
