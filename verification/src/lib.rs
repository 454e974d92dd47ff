pub mod access;
pub mod alerts;
pub mod archive;
pub mod clock;
pub mod config;
pub mod convert;
pub mod cycle;
pub mod date;
pub mod ddns;
pub mod decimal;
pub mod dns;
pub mod encode;
pub mod frontend;
pub mod guests;
pub mod history;
pub mod i18n;
pub mod iostream;
pub mod ip;
pub mod json;
pub mod jsonpath;
pub mod jsontext;
pub mod members;
pub mod model;
pub mod moment;
pub mod notification;
pub mod oauth2;
pub mod passage;
pub mod paths;
pub mod records;
pub mod registry;
pub mod reports;
pub mod requests;
pub mod rules;
pub mod scheduler;
pub mod search;
pub mod service;
pub mod settings;
pub mod signing;
pub mod sorting;
pub mod starts;
pub mod text;
pub mod tokens;
pub mod transfer;
pub mod triggers;
pub mod users;
pub mod waf;
