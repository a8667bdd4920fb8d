pub mod arrangement_strategy;
pub mod group_by_exif_interval;
pub mod group_by_exif_value;
pub mod group_by_filter;
pub mod group_by_filter_edit;
pub mod group_by_location;
pub mod group_by_tag;
pub mod grouping_process;
pub mod grouping_run;
pub mod picture_sets;
pub mod strategy_filtering;
pub mod strategy_grouping;
pub mod topological_sorts;
