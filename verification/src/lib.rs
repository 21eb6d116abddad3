pub mod student;
