//! The decision core of the Maverick window manager's X11 backend.
//!
//! Everything here is a function of plain values: geometry, client flags, atom
//! numbers, property words, key codes. The program around it talks to the X
//! server, hands the replies in, and carries out what comes back.

pub mod actions;
pub mod arrange;
pub mod atoms;
pub mod bar;
pub mod compositor;
pub mod config;
pub mod damage;
pub mod dialog;
pub mod dispatch;
pub mod docks;
pub mod drag;
pub mod events;
pub mod ewmh;
pub mod floats;
pub mod focus;
pub mod framesched;
pub mod fullscreen;
pub mod geom;
pub mod keyboard;
pub mod lifecycle;
pub mod manage;
pub mod model;
pub mod monitors;
pub mod overlay;
pub mod pointer;
pub mod present;
pub mod props;
pub mod reconciler;
pub mod runloop;
pub mod scene;
pub mod seqs;
pub mod stacking;
pub mod state;
pub mod text;
pub mod transient;
pub mod workspace;
pub mod xproto;
