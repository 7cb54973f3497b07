//! Analyses of Team Fortress 2 demos, tick by tick: who holds whom on the
//! last point, when a soldier sacks the defending medic, and who the users
//! of a demo are.
pub mod capture;
pub mod game;
pub mod players;
pub mod strat;
pub mod parse_sac;
pub mod parse_bert_airshot;
