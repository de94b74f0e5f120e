//! The messages sent to Expo's push service.
use vstd::prelude::*;

verus! {

/// One push notification for one device.
pub struct PushMessage<'a> {
    pub to: &'a str,
    pub title: &'a str,
    pub body: &'a str,
}

/// The owner of the push messages; the HTTP side lives with the application.
pub struct ExpoClient {
    client: reqwest::Client,
}

impl ExpoClient {
    pub closed spec fn http_client(&self) -> reqwest::Client {
        self.client
    }

    pub fn new(client: reqwest::Client) -> (r: Self)
        ensures
            r.http_client() == client,
    {
        Self { client }
    }

    /// The HTTP client this push client sends with.
    pub fn http(&self) -> (r: &reqwest::Client)
        ensures
            *r == self.http_client(),
    {
        &self.client
    }

    /// One message per token, in order, each with the same title and body.
    pub fn messages<'a>(tokens: &'a [String], title: &'a str, body: &'a str) -> (r: Vec<PushMessage<'a>>)
        ensures
            r@.len() == tokens@.len(),
            forall|i: int| 0 <= i < r@.len() ==> {
                &&& (#[trigger] r@[i]).to@ == tokens@[i]@
                &&& r@[i].title@ == title@
                &&& r@[i].body@ == body@
            },
    {
        let mut messages: Vec<PushMessage<'a>> = Vec::new();
        let mut i: usize = 0;
        while i < tokens.len()
            invariant
                i <= tokens@.len(),
                messages@.len() == i,
                forall|j: int| 0 <= j < i ==> {
                    &&& (#[trigger] messages@[j]).to@ == tokens@[j]@
                    &&& messages@[j].title@ == title@
                    &&& messages@[j].body@ == body@
                },
            decreases tokens@.len() - i,
        {
            messages.push(PushMessage { to: tokens[i].as_str(), title, body });
            i = i + 1;
        }
        messages
    }
}

} // verus!
