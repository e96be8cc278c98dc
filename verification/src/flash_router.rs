//! Share one flash between two clients, safely for a synchronous driver.
//!
//! A synchronous driver completes inside the call that starts an operation.
//! This router records the owner before the operation is forwarded, so a
//! completion that arrives during the call still routes correctly. It works
//! equally well with an asynchronous driver.

use vstd::prelude::*;

verus! {

/// The two ports.
#[derive(Copy, Clone, PartialEq, Eq, Structural)]
pub enum Which {
    A,
    B,
}

/// Routes completions to the port that issued the operation. `C` is how a
/// client is reached.
pub struct FlashRouter<C> {
    client_a: Option<C>,
    client_b: Option<C>,
    /// Port that issued the operation currently in progress.
    owner: Which,
}

/// What a router knows.
#[verifier::ext_equal]
pub struct RouterModel<C> {
    pub client_a: Option<C>,
    pub client_b: Option<C>,
    pub owner: Which,
}

impl<C> RouterModel<C> {
    /// The client of a port.
    pub open spec fn client(self, which: Which) -> Option<C> {
        match which {
            Which::A => self.client_a,
            Which::B => self.client_b,
        }
    }

    /// With a client set.
    pub open spec fn with_client(self, which: Which, client: C) -> RouterModel<C> {
        match which {
            Which::A => RouterModel { client_a: Some(client), ..self },
            Which::B => RouterModel { client_b: Some(client), ..self },
        }
    }

    /// With an operation issued by a port.
    pub open spec fn issued(self, which: Which) -> RouterModel<C> {
        RouterModel { owner: which, ..self }
    }

    /// Whom a completion goes to.
    pub open spec fn completes_to(self) -> Option<C> {
        self.client(self.owner)
    }
}

impl<C: Copy> View for FlashRouter<C> {
    type V = RouterModel<C>;

    closed spec fn view(&self) -> RouterModel<C> {
        RouterModel { client_a: self.client_a, client_b: self.client_b, owner: self.owner }
    }
}

impl<C: Copy> FlashRouter<C> {
    pub fn new() -> (router: FlashRouter<C>)
        ensures
            router@ == (RouterModel::<C> { client_a: None, client_b: None, owner: Which::A }),
    {
        FlashRouter { client_a: None, client_b: None, owner: Which::A }
    }

    pub fn set_client(&mut self, which: Which, client: C)
        ensures
            final(self)@ == old(self)@.with_client(which, client),
    {
        match which {
            Which::A => {
                self.client_a = Some(client);
            },
            Which::B => {
                self.client_b = Some(client);
            },
        }
    }

    /// The client to hand a completion to, if it has one.
    pub fn with_owner(&self) -> (client: Option<C>)
        ensures
            client == self@.completes_to(),
    {
        match self.owner {
            Which::A => self.client_a,
            Which::B => self.client_b,
        }
    }
}

/// One client's view of the shared flash.
pub struct FlashPort {
    which: Which,
}

impl FlashPort {
    pub closed spec fn port(self) -> Which {
        self.which
    }

    pub fn new(which: Which) -> (port: FlashPort)
        ensures
            port.port() == which,
    {
        FlashPort { which }
    }

    /// Claim the flash for an operation. To be done before the operation is
    /// forwarded: the completion may arrive before that returns.
    pub fn claim<C: Copy>(&self, router: &mut FlashRouter<C>)
        ensures
            final(router)@ == old(router)@.issued(self.port()),
    {
        router.owner = self.which;
    }
}

/// A completion goes to the port that issued the operation, whatever happens
/// to the other port's client in between, and even when it comes during the
/// call.
pub proof fn law_completion_goes_to_the_issuer<C>(
    router: RouterModel<C>,
    which: Which,
    other: Which,
    client: C,
)
    requires
        which != other,
    ensures
        router.issued(which).completes_to() == router.client(which),
        router.issued(which).with_client(other, client).completes_to() == router.client(which),
{
}

/// Each port has its own client: setting one is seen at its port and leaves the
/// other, and whoever holds the flash, alone.
pub proof fn law_clients_are_apart<C>(
    router: RouterModel<C>,
    which: Which,
    other: Which,
    client: C,
)
    requires
        which != other,
    ensures
        router.with_client(which, client).client(which) == Some(client),
        router.with_client(which, client).client(other) == router.client(other),
        router.with_client(which, client).owner == router.owner,
        router.issued(which).owner == which,
        router.issued(which).client(other) == router.client(other),
        router.issued(which).client(which) == router.client(which),
{
}

} // verus!
