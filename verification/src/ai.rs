pub mod patrol_area;
