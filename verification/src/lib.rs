//! Client library of the AcFun live toolbox: the protobuf wire format of the
//! danmaku link, its framing and encryption, the danmaku client session, the
//! signed requests to the live HTTP API and the QR login flow.

pub mod clock;
pub mod proto;
pub mod messages;
pub mod frame;
pub mod client;
pub mod session;
pub mod text;
pub mod sdk;
pub mod query;
pub mod live;
pub mod signals;
pub mod login;
pub mod commands;
