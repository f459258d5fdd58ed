//! State behind the destination-service entry form of the graphical
//! front end.  The front end itself is an external collaborator; only
//! the update rule for its state lives here.

use vstd::prelude::*;

verus! {

/// The destination-service form state.
#[allow(non_camel_case_types)]
#[derive(Debug)]
pub struct Destination_Service {
    pub destination_service_name: String,
}

/// Messages the form reacts to.
#[allow(non_camel_case_types)]
#[derive(Clone, Copy, Debug)]
pub enum Message {
    add_destination_service,
}

impl Destination_Service {
    /// Applies one message to the form state.
    pub fn update(&mut self, message: Message)
        ensures
            message is add_destination_service ==> final(self).destination_service_name@
                == "New String?"@,
    {
        match message {
            Message::add_destination_service => {
                self.destination_service_name = "New String?".to_owned();
            },
        }
    }
}

} // verus!
