use vstd::prelude::*;

verus! {

/// A boolean leaf value.
#[derive(Clone, Copy, Debug, Eq, Hash, PartialEq, PartialOrd, Ord)]
pub struct ValueBool(pub bool);

impl View for ValueBool {
    type V = bool;

    open spec fn view(&self) -> bool {
        self.0
    }
}

/// A number leaf. The literal source text is kept unparsed, so `1` and `1.0`
/// are distinct leaves even though they are numerically equal.
#[derive(Debug, Eq, Hash, PartialEq, PartialOrd, Ord)]
pub struct ValueNum(pub String);

impl View for ValueNum {
    type V = Seq<char>;

    open spec fn view(&self) -> Seq<char> {
        self.0@
    }
}

impl Clone for ValueNum {
    fn clone(&self) -> (res: Self)
        ensures
            res@ == self@,
    {
        ValueNum(self.0.clone())
    }
}

/// A string leaf; holds the unescaped content.
#[derive(Debug, Eq, Hash, PartialEq, PartialOrd, Ord)]
pub struct ValueStr(pub String);

impl View for ValueStr {
    type V = Seq<char>;

    open spec fn view(&self) -> Seq<char> {
        self.0@
    }
}

impl Clone for ValueStr {
    fn clone(&self) -> (res: Self)
        ensures
            res@ == self@,
    {
        ValueStr(self.0.clone())
    }
}

} // verus!
