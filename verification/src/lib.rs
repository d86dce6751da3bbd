pub mod driver;
pub mod estimator;
pub mod route;
pub mod select;
pub mod text;
