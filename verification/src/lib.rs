//! A registry of JOSE signing-algorithm identifiers.
//!
//! Each identifier pairs an algorithm name with its RFC 2119 implementation
//! requirement. Identifiers are grouped into families, which are sets with a
//! small algebra of bulk operations, and a resolver maps a name taken from a
//! token header back to its identifier.

pub mod jose;
