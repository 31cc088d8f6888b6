use vstd::prelude::*;

use std::sync::{Arc, Mutex};

verus! {

#[verifier::external_type_specification]
#[verifier::external_body]
#[verifier::reject_recursive_types(T)]
pub struct ExMutex<T: ?Sized>(Mutex<T>);

pub assume_specification<T>[ Mutex::<T>::new ](t: T) -> Mutex<T>;

/// The text that `format!("{:?}", ..)` gives for a list of messages.
pub uninterp spec fn debug_text(log: Seq<Seq<char>>) -> Seq<char>;

/// Relies on the `Debug` formatting of `Vec<String>`: a bracketed, comma
/// separated list of quoted messages; the text depends on the messages alone.
#[verifier::external_body]
fn debug_list(log: &Vec<String>) -> (r: String)
    ensures
        r@ == debug_text(crate::value::strings_view(log@)),
{
    format!("{:?}", log)
}

/// A logger that keeps every message, for assertions in tests.
#[derive(Debug)]
pub struct TestLogger {
    pub log: Vec<String>,
}

impl TestLogger {
    /// Keeps a message.
    pub fn log(&mut self, msg: String)
        ensures
            final(self).log@ == old(self).log@.push(msg),
    {
        self.log.push(msg);
    }

    /// The messages kept so far, as one text.
    pub fn dump(&self) -> (r: String)
        ensures
            r@ == debug_text(crate::value::strings_view(self.log@)),
    {
        debug_list(&self.log)
    }
}

/// A shared logger with no messages yet.
pub fn test_logger() -> (r: Arc<Mutex<TestLogger>>) {
    Arc::new(Mutex::new(TestLogger { log: Vec::new() }))
}

} // verus!
