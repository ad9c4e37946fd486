//! Owned kernel-object handles and the message-passing protocol built on
//! them: channels and message pipes with a probe-then-retry read protocol,
//! receive buffers with take-once handle slots, cookie-indexed wait sets,
//! and byte-addressable memory objects.
//!
//! The kernel's handle and object tables are carried as an explicit,
//! verified [`Kernel`] value: every operation that the kernel would perform
//! takes it as a parameter, and its contracts state exactly how the tables
//! change.

mod abi;
pub mod channel;
mod handle;
mod kernel;
mod laws;
mod pipe;
mod signals;
mod status;
mod vmo;
mod waitset;

pub use handle::Handle;
pub use handle::HandleBase;
pub use handle::HandleRef;
pub use handle::INVALID_HANDLE;
pub use handle::Peered;
pub use handle::handle_drop;

pub use abi::mx_cache_policy_t;
pub use abi::mx_ecam_window_t;
pub use abi::mx_handle_t;
pub use abi::mx_irq_t;
pub use abi::mx_pcie_get_nth_info_t;
pub use abi::mx_rights_t;
pub use abi::mx_signals_t;
pub use abi::mx_status_t;
pub use abi::mx_time_t;
pub use abi::mx_wait_item_t;
pub use abi::mx_waitset_result_t;

pub use channel::Channel;
pub use channel::ChannelOpts;
pub use channel::MessageBufView;

pub use laws::lemma_all_live_close_count;
pub use laws::lemma_fifo_delivery;
pub use laws::lemma_reduced_rights_duplicate;
pub use laws::lemma_take_handle_once;
pub use laws::lemma_take_reduces_close_count;
pub use laws::lemma_too_small_probe_preserves_message;
pub use laws::lemma_write_read_round_trip;

pub use pipe::HandleIter;
pub use pipe::MessageBuf;
pub use pipe::MessagePipe;
pub use pipe::PipeBufView;
pub use pipe::TIME_INFINITE;
pub use pipe::current_time;
pub use pipe::ensure_capacity;
pub use pipe::nanosleep;
pub use pipe::size_to_u32_sat;

pub use vmo::Vmo;

pub use waitset::WaitSet;
pub use waitset::WaitSetResult;

pub use kernel::CHANNEL_RIGHTS;
pub use kernel::ChanState;
pub use kernel::Entry;
pub use kernel::HandleInfo;
pub use kernel::Kernel;
pub use kernel::MAX_HANDLES;
pub use kernel::MAX_OBJECTS;
pub use kernel::MAX_VMO_SIZE;
pub use kernel::MX_FLAG_REPLY_PIPE;
pub use kernel::MX_TIME_INFINITE;
pub use kernel::Message;
pub use kernel::ObjKind;
pub use kernel::Object;
pub use kernel::ReadOutcome;
pub use kernel::Time;
pub use kernel::VMO_RIGHTS;
pub use kernel::WAITSET_RIGHTS;
pub use kernel::WsItem;
pub use kernel::WsReady;

pub use signals::MX_CHANNEL_PEER_CLOSED;
pub use signals::MX_CHANNEL_READABLE;
pub use signals::MX_CHANNEL_WRITABLE;
pub use signals::MX_RIGHT_DEBUG;
pub use signals::MX_RIGHT_DUPLICATE;
pub use signals::MX_RIGHT_EXECUTE;
pub use signals::MX_RIGHT_GET_PROPERTY;
pub use signals::MX_RIGHT_MAP;
pub use signals::MX_RIGHT_NONE;
pub use signals::MX_RIGHT_READ;
pub use signals::MX_RIGHT_SAME_RIGHTS;
pub use signals::MX_RIGHT_SET_PROPERTY;
pub use signals::MX_RIGHT_TRANSFER;
pub use signals::MX_RIGHT_WRITE;
pub use signals::MX_SIGNAL_NONE;
pub use signals::Rights;
pub use signals::Signals;
pub use signals::SignalsState;

pub use status::ERR_ACCESS_DENIED;
pub use status::ERR_ALREADY_BOUND;
pub use status::ERR_ALREADY_EXISTS;
pub use status::ERR_BAD_HANDLE;
pub use status::ERR_BAD_STATE;
pub use status::ERR_BUFFER_TOO_SMALL;
pub use status::ERR_HANDLE_CLOSED;
pub use status::ERR_INTERNAL;
pub use status::ERR_INVALID_ARGS;
pub use status::ERR_NOT_FOUND;
pub use status::ERR_NOT_SUPPORTED;
pub use status::ERR_NO_MEMORY;
pub use status::ERR_NO_RESOURCES;
pub use status::ERR_OUT_OF_RANGE;
pub use status::ERR_REMOTE_CLOSED;
pub use status::ERR_SHOULD_WAIT;
pub use status::ERR_TIMED_OUT;
pub use status::ERR_WRONG_TYPE;
pub use status::NO_ERROR;
pub use status::Status;
pub use status::into_result;
