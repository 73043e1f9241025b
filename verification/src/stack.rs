use vstd::prelude::*;

verus! {

/// A last-in first-out stack backed by a `Vec`, viewed as a sequence whose
/// last element is the top of the stack.
pub struct Stack<T> {
    data: Vec<T>,
}

impl<T> View for Stack<T> {
    type V = Seq<T>;

    closed spec fn view(&self) -> Seq<T> {
        self.data@
    }
}

impl<T> Stack<T> {
    pub fn new() -> (r: Self)
        ensures
            r@ == Seq::<T>::empty(),
    {
        Stack { data: Vec::new() }
    }

    pub fn len(&self) -> (n: usize)
        ensures
            n == self@.len(),
    {
        self.data.len()
    }

    pub fn is_empty(&self) -> (b: bool)
        ensures
            b == (self@.len() == 0),
    {
        self.data.len() == 0
    }

    /// The top of the stack, if there is one.
    pub fn peek(&self) -> (r: Option<&T>)
        ensures
            match r {
                Some(t) => self@.len() > 0 && *t == self@.last(),
                None => self@.len() == 0,
            },
    {
        if self.data.len() == 0 {
            None
        } else {
            Some(&self.data[self.data.len() - 1])
        }
    }

    pub fn push(&mut self, data: T)
        ensures
            final(self)@ == old(self)@.push(data),
    {
        self.data.push(data);
    }

    /// Discards the top of the stack; refuses an empty stack.
    pub fn pop(&mut self) -> (r: Result<(), String>)
        ensures
            match r {
                Ok(()) => old(self)@.len() > 0 && final(self)@ == old(self)@.drop_last(),
                Err(_) => old(self)@.len() == 0 && final(self)@ == old(self)@,
            },
    {
        if self.is_empty() {
            return Err("Empty stack.".to_string());
        }
        self.data.pop();
        Ok(())
    }

    pub fn clear(&mut self)
        ensures
            final(self)@ == Seq::<T>::empty(),
    {
        self.data.clear();
    }
}

} // verus!
