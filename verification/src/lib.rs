//! The decisions of a setuid program that runs web apps for the accounts of a
//! hosting panel: who may ask for what, how an app is started and confined, how
//! much it may use, and what the web server and the panel are told of it.
//!
//! Nothing here touches the machine. A function takes what was read (files,
//! processes, accounts) and returns what is to be done or answered; the program
//! around it reads, carries out and reports.

pub mod admin;
pub mod app;
pub mod cli;
pub mod command;
pub mod count;
pub mod da;
pub mod effect;
pub mod install;
pub mod limits;
pub mod order;
pub mod path;
pub mod plan;
pub mod runtime;
pub mod sys;
pub mod text;
pub mod webserver;
