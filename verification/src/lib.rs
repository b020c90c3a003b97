//! JSON-RPC 2.0 over WebSocket: topic matching, subscriptions, persistent
//! messages with retention, batches, middleware and request dispatch,
//! verified with Verus.
use vstd::prelude::*;

pub mod text;
pub mod index;
pub mod nats_pattern;
pub mod filter;
pub mod subscription;
pub mod retention;
pub mod storage;
pub mod error;
pub mod persistent_subscription;
pub mod batch;
pub mod middleware;
pub mod router;
pub mod dispatch;
pub mod publish;
pub mod template;
pub mod template_config;

pub use batch::{BatchMode, BatchProcessor};
pub use error::{ServerError, RpcErrorData};
pub use filter::{FilterError, FilteredSubscriptionManager, TopicFilter};
pub use middleware::{LoggingMiddleware, MetricsMiddleware, TracingMiddleware};
pub use nats_pattern::{NatsPattern, PatternError, Token};
pub use persistent_subscription::PersistentSubscriptionManager;
pub use retention::RetentionPolicy;
pub use router::HandlerTable;
pub use storage::{PersistentMessage, SubscriptionState, TopicMetadata};
pub use subscription::SubscriptionManager;

verus! {
} // verus!
