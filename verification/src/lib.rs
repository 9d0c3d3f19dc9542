pub mod auth;
pub mod foreign;
pub mod proxy;
pub mod seqs;
pub mod storage;
