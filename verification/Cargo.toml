[package]
name = "amethyst_nphysics"
version = "0.1.0"
edition = "2021"
publish = false

[dependencies]
generational-arena = "=0.2.9"
ncollide3d = "=0.32.0"
nphysics3d = "=0.24.0"
amethyst_core = "=0.8.1"
amethyst_physics = "=0.1.1"
log = "=0.4.34"
