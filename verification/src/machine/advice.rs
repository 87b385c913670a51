//! The advice tape: an external input read one byte at a time.

use vstd::prelude::*;

verus! {

/// A source of advice bytes.
pub trait AdviceProvider {
    /// Get the next byte from the advice tape, if any.
    fn get_advice(&mut self) -> Option<u8>;
}

/// An advice tape whose whole content is known up front.
pub struct FixedAdviceProvider {
    advice: Vec<u8>,
    index: usize,
}

impl FixedAdviceProvider {
    /// The cursor never passes the end of the tape.
    #[verifier::type_invariant]
    spec fn cursor_in_bounds(&self) -> bool {
        self.index <= self.advice.len()
    }

    /// The bytes that have not been handed out yet, in the order in which
    /// they will be.
    pub closed spec fn remaining(&self) -> Seq<u8> {
        self.advice@.subrange(self.index as int, self.advice.len() as int)
    }

    /// A tape with nothing on it.
    pub fn empty() -> (tape: Self)
        ensures
            tape.remaining() == Seq::<u8>::empty(),
    {
        Self::new(Vec::new())
    }

    /// A tape that hands out `advice` from its first byte on.
    pub fn new(advice: Vec<u8>) -> (tape: Self)
        ensures
            tape.remaining() == advice@,
    {
        let tape = Self { advice, index: 0 };
        assert(tape.remaining() =~= advice@);
        tape
    }
}

impl AdviceProvider for FixedAdviceProvider {
    fn get_advice(&mut self) -> (byte: Option<u8>)
        ensures
            old(self).remaining().len() == 0 ==> byte.is_none() && final(self).remaining()
                == old(self).remaining(),
            old(self).remaining().len() > 0 ==> byte == Some(old(self).remaining()[0])
                && final(self).remaining() == old(self).remaining().drop_first(),
    {
        proof {
            use_type_invariant(&*self);
        }
        if self.index < self.advice.len() {
            let advice_byte = self.advice[self.index];
            self.index += 1;
            assert(self.remaining() =~= old(self).remaining().drop_first());
            Some(advice_byte)
        } else {
            None
        }
    }
}

/// The advice tape fed from the process's standard input.
pub struct StdinAdviceProvider;

/// Reads one byte with `std::io::Read::read_exact` on `std::io::stdin()`.
/// What comes back depends on the environment, so nothing is claimed of it:
/// `None` stands for any failure to read, the end of the stream included.
#[verifier::external_body]
fn read_stdin_byte() -> Option<u8> {
    let mut advice_byte = 0u8;
    match std::io::Read::read_exact(
        &mut std::io::stdin(),
        core::slice::from_mut(&mut advice_byte),
    ) {
        Ok(_) => Some(advice_byte),
        Err(_) => None,
    }
}

impl AdviceProvider for StdinAdviceProvider {
    fn get_advice(&mut self) -> Option<u8> {
        read_stdin_byte()
    }
}

/// The two kinds of tape a machine can be run with.
pub enum AdviceProviderType {
    Stdin(StdinAdviceProvider),
    Fixed(FixedAdviceProvider),
}

impl AdviceProviderType {
    /// The bytes still to come where they are known: those of a fixed tape.
    pub open spec fn remaining(&self) -> Option<Seq<u8>> {
        match self {
            AdviceProviderType::Stdin(_) => None,
            AdviceProviderType::Fixed(tape) => Some(tape.remaining()),
        }
    }

    /// How one read changes a tape of known content `before` into `after`
    /// and what it hands out.
    pub open spec fn step(before: Seq<u8>, after: Seq<u8>, byte: Option<u8>) -> bool {
        if before.len() == 0 {
            byte.is_none() && after == before
        } else {
            byte == Some(before[0]) && after == before.drop_first()
        }
    }

    /// Reads the next byte from whichever tape this is.
    pub fn get_advice(&mut self) -> (byte: Option<u8>)
        ensures
            old(self).remaining().is_none() ==> final(self).remaining().is_none(),
            old(self).remaining().is_some() ==> final(self).remaining().is_some() && Self::step(
                old(self).remaining().unwrap(),
                final(self).remaining().unwrap(),
                byte,
            ),
    {
        match self {
            AdviceProviderType::Stdin(provider) => provider.get_advice(),
            AdviceProviderType::Fixed(provider) => provider.get_advice(),
        }
    }
}

/// The advice tape of a running machine.
pub struct GlobalAdviceProvider {
    provider: AdviceProviderType,
}

impl GlobalAdviceProvider {
    /// The bytes still to come where they are known.
    pub closed spec fn remaining(&self) -> Option<Seq<u8>> {
        self.provider.remaining()
    }

    /// A tape over the given content, or over standard input where there is
    /// none.
    pub fn new(advice: Option<Vec<u8>>) -> (tape: Self)
        ensures
            tape.remaining() == match advice {
                Some(bytes) => Some(bytes@),
                None => None::<Seq<u8>>,
            },
    {
        match advice {
            Some(bytes) => {
                let provider = AdviceProviderType::Fixed(FixedAdviceProvider::new(bytes));
                Self { provider }
            },
            None => {
                let provider = AdviceProviderType::Stdin(StdinAdviceProvider);
                Self { provider }
            },
        }
    }
}

impl AdviceProvider for GlobalAdviceProvider {
    fn get_advice(&mut self) -> (byte: Option<u8>)
        ensures
            old(self).remaining().is_none() ==> final(self).remaining().is_none(),
            old(self).remaining().is_some() ==> final(self).remaining().is_some()
                && AdviceProviderType::step(
                old(self).remaining().unwrap(),
                final(self).remaining().unwrap(),
                byte,
            ),
    {
        self.provider.get_advice()
    }
}

} // verus!
