//! The web API: its endpoints, their messages, and the pages of the client.
use vstd::prelude::*;

verus! {

/// The pages of the web client.
#[derive(Clone, Copy, Debug, PartialEq, Eq, Structural)]
pub enum Route {
    Home,
    Login,
}

impl Route {
    /// The path a page is served at.
    pub fn path(&self) -> (r: String)
        ensures
            *self == Route::Home ==> r@ == "/"@,
            *self == Route::Login ==> r@ == "/login"@,
    {
        match self {
            Route::Home => "/".to_owned(),
            Route::Login => "/login".to_owned(),
        }
    }
}

/// The request methods of HTTP.
#[derive(Clone, Copy, Debug, PartialEq, Eq, Structural)]
pub enum HttpMethod {
    Delete,
    Get,
    Head,
    Options,
    Patch,
    Post,
    Put,
    Trace,
}

/// An endpoint of the API: a method and a path.
pub trait Endpoint {
    /// The method the endpoint answers.
    fn method(&self) -> HttpMethod;

    /// The path of the endpoint.
    fn path(&self) -> String;
}

/// An endpoint whose requests change nothing on the server.
pub trait SafeEndpoint: Endpoint {

}

/// The greeting endpoint.
pub struct GreetingEndpoint;

impl Endpoint for GreetingEndpoint {
    // The method is POST, which is not a safe method, so that the request
    // can carry a protobuf body.
    fn method(&self) -> (r: HttpMethod)
        ensures
            r == HttpMethod::Post,
    {
        HttpMethod::Post
    }

    fn path(&self) -> (r: String)
        ensures
            r@ == "/greet"@,
    {
        "/greet".to_owned()
    }
}

impl SafeEndpoint for GreetingEndpoint {

}

/// The request of the greeting endpoint: who to greet.
#[derive(Clone, Debug, PartialEq, Eq)]
pub struct GreetingName {
    pub name: String,
}

/// The response of the greeting endpoint.
#[derive(Clone, Debug, PartialEq, Eq)]
pub struct Greeting {
    pub content: String,
}

/// The greeting in answer to `name`.
pub open spec fn greeting_for(name: Seq<char>) -> Seq<char> {
    "Hello "@ + name + ", from shoutter_webserver!"@
}

/// The server side of the greeting endpoint.
#[derive(Clone, Copy, Debug)]
pub struct GreetingEndpointHandler;

impl GreetingEndpointHandler {
    /// Greets the sender by the name in `body`.
    pub fn handle(&mut self, body: GreetingName) -> (r: Result<Greeting, String>)
        ensures
            r is Ok && r->Ok_0.content@ == greeting_for(body.name@),
    {
        let mut content = "Hello ".to_owned();
        content.append(body.name.as_str());
        content.append(", from shoutter_webserver!");
        Ok(Greeting { content })
    }
}

} // verus!
