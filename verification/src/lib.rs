//! Core logic of a LAN file-sharing relay: a host republishes a directory
//! owned by a remote browser client as a WebDAV share, tunnelling every
//! filesystem operation over a persistent text-frame socket.

pub mod auth;
pub mod base64;
pub mod bytesutil;
pub mod config;
pub mod frames;
pub mod html;
pub mod isotime;
pub mod mountpath;
pub mod mounttable;
pub mod outside;
pub mod relay;
pub mod session;
pub mod state;
pub mod strutil;
pub mod tls;
pub mod urlpath;
pub mod webdav;
