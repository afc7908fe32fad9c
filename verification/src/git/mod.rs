pub mod atomize;
pub mod branch;
pub mod commit;
pub mod order;
pub mod walk;
