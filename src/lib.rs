use vstd::prelude::*;

pub mod codec;
pub mod number;
pub mod session;
pub mod state;
pub mod store;

pub use codec::InsenError;
pub use session::{InsenController, MonitorPlan};
pub use state::ControllerState;
pub use store::ControllerStore;

verus! {

} // verus!
