//! Elaboration core of a SystemVerilog compiler front end.
//!
//! This library resolves generic instantiations of parametrized modules and
//! interfaces into concrete, per-instantiation parameter environments, and
//! resolves the port connections made at each instantiation site.  Parameter
//! environments are content-addressed: structurally equal environments are
//! interned to one stable handle, which makes downstream queries memoizable.

pub mod assoc;
pub mod ast;
pub mod ast_map;
pub mod common;
pub mod context;
pub mod diag;
pub mod hir;
pub mod param_env;
pub mod port_list;
pub mod port_mapping;
