pub mod ranking;
pub mod text;
pub mod coin;
pub mod lookup;
pub mod tokens;
pub mod prices;
pub mod csv;
pub mod soulbound;
pub mod balances;
pub mod socials;
pub mod archid;
pub mod astrovault;
pub mod staking;
pub mod liquid;
pub mod rpc;
pub mod config;
pub mod assets;
