//! The containers that `docker ps` lists on the server, and the part of each
//! that the front end is sent.

use vstd::prelude::*;

use vstd::std_specs::convert::FromSpecImpl;

verus! {

/// One line of `docker ps --format json`.
#[derive(Default, Debug, PartialEq)]
pub struct Container {
    pub command: String,
    pub created_at: String,
    pub id: String,
    pub image: String,
    pub labels: String,
    pub local_volumes: String,
    pub mounts: String,
    pub names: String,
    pub networks: String,
    pub ports: String,
    pub running_for: String,
    pub size: String,
    pub state: String,
    pub status: String,
}

impl Clone for Container {
    fn clone(&self) -> (res: Self)
        ensures
            res == *self,
    {
        Container {
            command: self.command.clone(),
            created_at: self.created_at.clone(),
            id: self.id.clone(),
            image: self.image.clone(),
            labels: self.labels.clone(),
            local_volumes: self.local_volumes.clone(),
            mounts: self.mounts.clone(),
            names: self.names.clone(),
            networks: self.networks.clone(),
            ports: self.ports.clone(),
            running_for: self.running_for.clone(),
            size: self.size.clone(),
            state: self.state.clone(),
            status: self.status.clone(),
        }
    }
}

/// The part of a container that the front end shows.
#[derive(Default, Debug, PartialEq)]
pub struct ContainerFront {
    pub image: String,
    pub names: String,
    pub ports: String,
    pub running_for: String,
    pub size: String,
    pub state: String,
    pub status: String,
}

impl Clone for ContainerFront {
    fn clone(&self) -> (res: Self)
        ensures
            res == *self,
    {
        ContainerFront {
            image: self.image.clone(),
            names: self.names.clone(),
            ports: self.ports.clone(),
            running_for: self.running_for.clone(),
            size: self.size.clone(),
            state: self.state.clone(),
            status: self.status.clone(),
        }
    }
}

/// The front-end part of `c`: its image, names, ports, age, size, state and
/// status, unchanged.
pub open spec fn front_of(c: Container) -> ContainerFront {
    ContainerFront {
        image: c.image,
        names: c.names,
        ports: c.ports,
        running_for: c.running_for,
        size: c.size,
        state: c.state,
        status: c.status,
    }
}

impl<'a> From<&'a Container> for ContainerFront {
    fn from(item: &'a Container) -> (res: ContainerFront)
        ensures
            res == front_of(*item),
    {
        ContainerFront {
            image: item.image.clone(),
            names: item.names.clone(),
            ports: item.ports.clone(),
            running_for: item.running_for.clone(),
            size: item.size.clone(),
            state: item.state.clone(),
            status: item.status.clone(),
        }
    }
}

impl<'a> FromSpecImpl<&'a Container> for ContainerFront {
    open spec fn obeys_from_spec() -> bool {
        true
    }

    open spec fn from_spec(item: &'a Container) -> ContainerFront {
        front_of(*item)
    }
}

impl From<Container> for ContainerFront {
    fn from(item: Container) -> (res: ContainerFront)
        ensures
            res == front_of(item),
    {
        ContainerFront {
            image: item.image,
            names: item.names,
            ports: item.ports,
            running_for: item.running_for,
            size: item.size,
            state: item.state,
            status: item.status,
        }
    }
}

impl FromSpecImpl<Container> for ContainerFront {
    open spec fn obeys_from_spec() -> bool {
        true
    }

    open spec fn from_spec(item: Container) -> ContainerFront {
        front_of(item)
    }
}

} // verus!
