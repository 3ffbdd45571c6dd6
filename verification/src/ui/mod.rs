pub mod countdown;
