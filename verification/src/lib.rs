pub mod displayprefix;
pub mod kuid;
pub mod locate;
pub mod log;
pub mod orchestrator;
pub mod textutil;
pub mod trainzutil;
