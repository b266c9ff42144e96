use vstd::prelude::*;

verus! {

/// A process-wide write-once cell, the ownership model behind the
/// descriptor tables: the first initialization attempt stores its value,
/// every later attempt is a no-op, and a reader sees either nothing or
/// the one completed value — by construction never a partial one.
pub struct OnceCell<T> {
    value: Option<T>,
}

impl<T> OnceCell<T> {
    /// The stored value, if initialization has run.
    pub closed spec fn stored(self) -> Option<T> {
        self.value
    }

    /// An empty cell.
    pub fn new() -> (c: Self)
        ensures
            c.stored() is None,
    {
        OnceCell { value: None }
    }

    /// Whether the one-time initialization has already run.
    pub fn is_completed(&self) -> (b: bool)
        ensures
            b == (self.stored() is Some),
    {
        self.value.is_some()
    }

    /// One-time initialization: stores `value` if the cell is still
    /// empty, and otherwise leaves the stored value untouched — a second
    /// attempt never replaces live state.
    pub fn call_once(&mut self, value: T)
        ensures
            final(self).stored() == once_outcome(old(self).stored(), value),
    {
        if self.value.is_none() {
            self.value = Some(value);
        }
    }

    /// Reads the stored value, or nothing if initialization has not run.
    pub fn get(&self) -> (r: Option<&T>)
        ensures
            match r {
                Option::Some(v) => self.stored() == Some(*v),
                Option::None => self.stored() is None,
            },
    {
        match &self.value {
            Option::Some(v) => Some(v),
            Option::None => None,
        }
    }
}

/// What a one-time cell holds after an initialization attempt with
/// `value`: the attempt fills an empty cell and leaves a full one alone.
pub open spec fn once_outcome<T>(stored: Option<T>, value: T) -> Option<T> {
    match stored {
        Option::None => Some(value),
        Option::Some(v) => Some(v),
    }
}

/// A one-time cell keeps its first value: once some initialization
/// attempt has stored `first`, every later attempt — whatever value it
/// brings — leaves `first` in place, so all readers agree forever.
pub proof fn lemma_once_keeps_first_value<T>(first: T, later: T)
    ensures
        once_outcome(once_outcome(None::<T>, first), later) == Some(first),
        forall|s: Option<T>| s is Some ==> #[trigger] once_outcome(s, later) == s,
{
}

} // verus!
