pub mod event;
pub mod focus;
pub mod registry;
pub mod router;
pub mod session;

pub use event::{AbsInfo, DeviceInfo, Event, Update};
pub use router::{loopback_result, Delivery, DeviceFailure, Error, Loopback, Route, Router};
pub use session::{AuthStatus, ClientError, Negotiation, Outbox, Phase, Source, Version};
