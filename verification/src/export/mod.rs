pub mod gsf;
pub mod xyz;
