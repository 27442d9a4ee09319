//! Verified core of the dockio diagram front end: the decoding of draw.io
//! diagrams into nodes, the container-id encoding carried by the diagram's
//! rotation attributes, and the decisions that colour the diagram by the
//! state of the containers that the server reports.

pub mod text;
pub mod table;
pub mod model;
pub mod utils;
pub mod docker;
pub mod mxfile;
pub mod dashboard;
pub mod page;
pub mod tooltip;
