//! Shared configuration types exchanged with the host runtime.

use vstd::prelude::*;

verus! {

/// The language of a configuration override.
#[derive(Debug, Clone, Copy)]
pub enum OverrideFormat {
    Yaml,
    Javascript,
}

/// One configuration override entry.
#[derive(Debug, Clone)]
pub struct OverrideConfig {
    pub id: String,
    pub name: String,
    pub format: OverrideFormat,
    pub content: String,
}

/// How outbound traffic is routed.
#[derive(Debug, Clone, Copy)]
pub enum ProxyMode {
    Direct,
    System,
    Core,
}

} // verus!
