use vstd::prelude::*;

verus! {

/// The envelope of every API response: a list of data, or a list of error
/// messages.
#[derive(Debug, PartialEq, Eq)]
pub struct V2Reply<T> {
    pub data: Vec<T>,
    pub errors: Vec<String>,
}

impl<T> V2Reply<T> {
    /// The reply reports a failure.
    pub open spec fn is_error(&self) -> bool {
        self.errors@.len() > 0
    }

    /// The reply that carries one object.
    pub fn ok(obj: T) -> (r: Self)
        ensures
            r.data@ == seq![obj],
            r.errors@.len() == 0,
            !r.is_error(),
    {
        let mut data: Vec<T> = Vec::new();
        data.push(obj);
        assert(data@ =~= seq![obj]);
        V2Reply { data, errors: Vec::new() }
    }

    /// The reply that carries a list of objects.
    pub fn list(data: Vec<T>) -> (r: Self)
        ensures
            r.data == data,
            r.errors@.len() == 0,
            !r.is_error(),
    {
        V2Reply { data, errors: Vec::new() }
    }

    /// The reply that carries no data and one error message.
    pub fn error(message: String) -> (r: Self)
        ensures
            r.data@.len() == 0,
            r.errors@ == seq![message],
            r.is_error(),
    {
        let mut errors: Vec<String> = Vec::new();
        errors.push(message);
        assert(errors@ =~= seq![message]);
        V2Reply { data: Vec::new(), errors }
    }
}

} // verus!
