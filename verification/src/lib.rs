//! Structured concurrency and reactive streams: a cancellation tree with
//! scopes and task handles, and cold and hot streams with their operators.

pub mod builders;
pub mod combining;
pub mod deferred;
pub mod dispatcher;
pub mod flow;
pub mod hot_flow;
pub mod job;
pub mod lifecycle;
pub mod merging;
pub mod operators;
pub mod scope;
pub mod stages;
pub mod suspending;
pub mod terminal;

pub use builders::{
    empty_flow, flow_of, flow_of_one, flow_range, flow_range_inclusive, generate_flow,
    interval_flow, repeat_flow, IntoFlow,
};
pub use combining::{FlowCombining, Side};
pub use deferred::{AwaitError, Awaited, Deferred};
pub use dispatcher::{Dispatcher, Dispatchers, Executor, TokioExecutor};
pub use flow::{flow, Flow, FlowCollector};
pub use hot_flow::{SharedFlow, StateFlow, Subscription};
pub use job::{JobHandle, JobTree};
pub use lifecycle::FlowLifecycle;
pub use merging::merge;
pub use operators::FlowExt;
pub use scope::{gate, CoroutineScope, Gate};
pub use suspending::{Suspending, SuspendingExt};
pub use terminal::{FlowError, FlowTerminal};
