pub mod game;
pub mod playerdata;
pub mod stack;
pub mod util;
