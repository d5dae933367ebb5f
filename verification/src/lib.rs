pub mod fb;
pub mod menu;
pub mod airsea;
pub mod attract;
pub mod badge;
pub mod invaders;
pub mod led_show;
pub mod commands;
pub mod font;
