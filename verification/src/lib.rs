//! The rules of pacman-ostree, verified.
//!
//! pacman-ostree composes an immutable image of an Arch based system in
//! a content-addressed object store, layers packages on top of a
//! deployed base by rebuilding the tree from the base, and packs a commit
//! into the layers of a container image by the package or component
//! that each file belongs to.
//!
//! This library holds what is decided and computed on the way: the
//! layered state and its encoding in the metadata of a commit, the
//! package database, the assignment of every object to its content
//! group, the actions of the commit generator, the steps of the
//! normalization of a root, and the invocations of the tools of the
//! host. It reads no file and runs no tool: its functions take plain
//! values and give plain values back. Every function is verified against
//! its contract.
//!
//! Names, checksums and paths are kept in collections that are sorted
//! by the byte order of strings ([`name_set`], [`name_map`], [`order`]),
//! so that everything the library computes is a function of its inputs
//! and never of the order in which they came.

pub mod commands;
pub mod commit;
pub mod deployments;
pub mod error;
pub mod export;
pub mod idempotence;
pub mod layered;
pub mod manifest;
pub mod mapping;
pub mod name_map;
pub mod name_set;
pub mod normalize;
pub mod order;
pub mod pacman;
pub mod provenance;
pub mod rebuild;
pub mod rootfs;
pub mod store;
pub mod text;
pub mod tree;
