//! Decision logic of a push-to-talk dictation daemon.

pub mod asr;
pub mod assemblyai;
pub mod audio;
pub mod commands;
pub mod config;
pub mod correct;
pub mod daemon;
pub mod deepgram;
pub mod fillers;
pub mod fireworks;
pub mod fnkey;
pub mod groq;
pub mod history;
pub mod inputmethod;
pub mod ipc;
pub mod json;
pub mod keyinject;
pub mod output;
pub mod overlay;
pub mod session;
pub mod sound;
pub mod state;
pub mod text;
pub mod transcript;
pub mod tray;
pub mod vad;
