pub mod xma;
