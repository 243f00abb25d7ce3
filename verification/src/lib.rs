//! Backend commands of a desktop application shell: a greeting, the timer
//! commands, and a listing of the running processes ranked by CPU usage.

pub mod cpu_usage;
pub mod devtools;
pub mod greeting;
pub mod process;
pub mod ranking;
pub mod snapshot;
pub mod timer;

pub use cpu_usage::CpuUsage;
pub use devtools::{toggle_devtools, DEVTOOLS_EVENT};
pub use greeting::greet;
pub use process::ProcessInfo;
pub use ranking::rank_by_cpu_usage;
pub use snapshot::{get_processes, ranked_processes};
pub use timer::{get_timer_state, stop_timer, TimerState};
