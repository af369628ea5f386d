use vstd::prelude::*;

use std::sync::Arc;
use vstd::std_specs::convert::IntoSpec;

use crate::text::owned_string;

verus! {

/// The text that errors of the chat dispatcher are logged under.
pub struct LoggingErrorHandler {
    text: String,
}

impl LoggingErrorHandler {
    pub closed spec fn text_view(&self) -> Seq<char> {
        self.text@
    }

    #[must_use]
    pub fn with_custom_text<T>(text: T) -> (r: Arc<Self>)
        where
            T: Into<String>,
        ensures
            <T as IntoSpec<String>>::obeys_into_spec() ==> r.text_view() == <T as IntoSpec<
                String,
            >>::into_spec(text)@,
    {
        Arc::new(LoggingErrorHandler { text: text.into() })
    }

    #[must_use]
    pub fn new() -> (r: Arc<Self>)
        ensures
            r.text_view() == "Error"@,
    {
        Arc::new(LoggingErrorHandler { text: owned_string("Error") })
    }

    pub fn text(&self) -> (r: &str)
        ensures
            r@ == self.text_view(),
    {
        self.text.as_str()
    }
}

} // verus!
