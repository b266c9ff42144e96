use vstd::prelude::*;
use vstd::string::StrSliceExecFns;

verus! {

/// The character-oriented diagnostic output channel, seen as the stream
/// of characters handed to it so far. The port hardware behind it is
/// written one character at a time at the hardware boundary; this value
/// records exactly what was sent, in order.
pub struct SerialPort {
    transmitted: Vec<char>,
}

impl SerialPort {
    /// The characters sent so far, oldest first.
    pub closed spec fn view(&self) -> Seq<char> {
        self.transmitted@
    }

    /// A freshly initialized port: nothing sent yet.
    pub fn new() -> (p: SerialPort)
        ensures
            p@ =~= Seq::<char>::empty(),
    {
        SerialPort { transmitted: Vec::new() }
    }

    /// The characters sent so far.
    pub fn contents(&self) -> (r: &Vec<char>)
        ensures
            r@ == self@,
    {
        &self.transmitted
    }
}

/// Sends a single character: it is appended to the transmitted stream.
pub fn write_char(port: &mut SerialPort, c: char)
    ensures
        final(port)@ == old(port)@.push(c),
{
    port.transmitted.push(c);
}

/// Sends a string, character by character in order: the transmitted
/// stream grows by exactly the string's characters.
pub fn write(port: &mut SerialPort, s: &str)
    ensures
        final(port)@ == old(port)@ + s@,
{
    let n = s.unicode_len();
    let mut i: usize = 0;
    while i < n
        invariant
            n == s@.len(),
            0 <= i <= n,
            port@ == old(port)@ + s@.subrange(0, i as int),
        decreases n - i,
    {
        let c = s.get_char(i);
        write_char(port, c);
        i = i + 1;
        proof {
            assert(s@.subrange(0, i - 1).push(s@[i - 1]) =~= s@.subrange(0, i as int));
        }
    }
    proof {
        assert(s@.subrange(0, n as int) =~= s@);
    }
}

} // verus!
