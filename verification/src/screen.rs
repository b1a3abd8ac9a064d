//! The screens of the client.

use vstd::prelude::*;

verus! {

/// The screens of the client.
#[derive(Clone, Copy, Debug, PartialEq, Eq, Structural)]
pub enum View {
    ChatList,
    ChatWindow,
    ContactBrowser,
}

} // verus!
