//! Verified core of the Rholang compiler front end: source spans, the
//! environments that map variables to de Bruijn indices and levels, the
//! normalizer from parsed processes to normalized terms, the subset
//! enumeration used by the spatial matcher, and the hot store of the tuple
//! space.
pub mod span;
pub mod assoc;
pub mod context;
pub mod free_map;
pub mod bound_map;
pub mod ast;
pub mod normalize;
pub mod receive;
pub mod binders;
pub mod compiler;
pub mod let_rewrite;
pub mod subset;
pub mod product;
pub mod sub_pars;
pub mod state_manager;
pub mod dash;
pub mod util;
pub mod random;
pub mod hot_store;
pub mod hot_store_laws;
pub mod new_scope;
pub mod term;
pub mod syntax;
pub mod term_eq;
pub mod term_copy;
pub mod env;
pub mod normalizer;
pub mod send_sync;
pub mod concurrent_let;
