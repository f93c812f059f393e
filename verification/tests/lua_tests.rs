//! The original interpreter checks, run against a Lua engine assembled the
//! way the command-line front end assembles it: the library's verified
//! color arithmetic behind local userdata wrappers.

use mlua::{FromLua, IntoLua, Lua, UserData, UserDataMethods, Value};

use reaper_theme_packer::color::{blend_code, Color, RGB, RGBA};

#[derive(Debug, Clone, Copy, PartialEq, Eq)]
struct LuaRgb(u8, u8, u8);

#[derive(Debug, Clone, Copy, PartialEq, Eq)]
struct LuaRgba(u8, u8, u8, u8);

impl From<LuaRgb> for RGB {
    fn from(c: LuaRgb) -> RGB {
        RGB(c.0, c.1, c.2)
    }
}

impl From<RGB> for LuaRgb {
    fn from(c: RGB) -> LuaRgb {
        LuaRgb(c.0, c.1, c.2)
    }
}

impl From<LuaRgba> for RGBA {
    fn from(c: LuaRgba) -> RGBA {
        RGBA(c.0, c.1, c.2, c.3)
    }
}

impl From<RGBA> for LuaRgba {
    fn from(c: RGBA) -> LuaRgba {
        LuaRgba(c.0, c.1, c.2, c.3)
    }
}

impl FromLua for LuaRgb {
    fn from_lua(value: Value, _lua: &Lua) -> mlua::Result<Self> {
        match value {
            Value::UserData(ud) => Ok(*ud.borrow::<LuaRgb>()?),
            _ => Err(mlua::Error::FromLuaConversionError {
                from: "value",
                to: "RGB".to_string(),
                message: None,
            }),
        }
    }
}

impl FromLua for LuaRgba {
    fn from_lua(value: Value, _lua: &Lua) -> mlua::Result<Self> {
        match value {
            Value::UserData(ud) => Ok(*ud.borrow::<LuaRgba>()?),
            _ => Err(mlua::Error::FromLuaConversionError {
                from: "value",
                to: "RGBA".to_string(),
                message: None,
            }),
        }
    }
}

fn color_err(e: reaper_theme_packer::color::ColorError) -> mlua::Error {
    mlua::Error::RuntimeError(format!("{:?}", e))
}

impl UserData for LuaRgb {
    fn add_methods<M: UserDataMethods<Self>>(methods: &mut M) {
        methods.add_method("arr", |_, this, _value: ()| {
            Ok(String::from_utf8_lossy(&RGB::from(*this).arr()).into_owned())
        });
        methods.add_method("with_alpha", |_, this, (alpha,): (u8,)| {
            Ok(LuaRgba::from(RGB::from(*this).with_alpha(alpha)))
        });
        methods.add_method("negative", |_, this, _value: ()| {
            Ok(RGB::from(*this).negative())
        });
        methods.add_method("hex", |_, this, _value: ()| {
            Ok(String::from_utf8_lossy(&RGB::from(*this).hex()).into_owned())
        });
        methods.add_meta_method(mlua::MetaMethod::Add, |_, this, other: LuaRgb| {
            RGB::from(*this).add(&RGB::from(other)).map(LuaRgb::from).map_err(color_err)
        });
        methods.add_meta_method(mlua::MetaMethod::Sub, |_, this, other: LuaRgb| {
            RGB::from(*this).sub(&RGB::from(other)).map(LuaRgb::from).map_err(color_err)
        });
    }
}

impl UserData for LuaRgba {
    fn add_methods<M: UserDataMethods<Self>>(methods: &mut M) {
        methods.add_method("arr", |_, this, _value: ()| {
            Ok(String::from_utf8_lossy(&RGBA::from(*this).arr()).into_owned())
        });
        methods.add_method("with_alpha", |_, this, (alpha,): (u8,)| {
            Ok(LuaRgba::from(RGBA::from(*this).with_alpha(alpha)))
        });
        methods.add_method("to_rgb", |_, this, _value: ()| {
            Ok(LuaRgb::from(RGBA::from(*this).to_rgb()))
        });
        methods.add_method("hex", |_, this, _value: ()| {
            Ok(String::from_utf8_lossy(&RGBA::from(*this).hex()).into_owned())
        });
        methods.add_meta_method(mlua::MetaMethod::Add, |_, this, other: LuaRgba| {
            RGBA::from(*this).add(&RGBA::from(other)).map(LuaRgba::from).map_err(color_err)
        });
        methods.add_meta_method(mlua::MetaMethod::Sub, |_, this, other: LuaRgba| {
            RGBA::from(*this).sub(&RGBA::from(other)).map(LuaRgba::from).map_err(color_err)
        });
    }
}

/// The engine with the theme builtins, as the front end registers them.
fn new() -> Lua {
    let lua = Lua::new();
    {
        let globals = lua.globals();

        let func = lua
            .create_function(|lua, (value, channels): (u32, Option<u8>)| {
                let result = if let Some(channels) = channels {
                    Color::new_with_channels(value, channels)
                } else {
                    Color::from_value(value)
                };
                match result.map_err(color_err)? {
                    Color::RGB(x) => LuaRgb::from(x).into_lua(lua),
                    Color::RGBA(x) => LuaRgba::from(x).into_lua(lua),
                }
            })
            .unwrap();
        globals.set("color", func).unwrap();

        let func = lua
            .create_function(|_, (r, g, b): (u8, u8, u8)| Ok(LuaRgb(r, g, b)))
            .unwrap();
        globals.set("rgb", func).unwrap();

        let func = lua
            .create_function(|_, (r, g, b, a): (u8, u8, u8, u8)| Ok(LuaRgba(r, g, b, a)))
            .unwrap();
        globals.set("rgba", func).unwrap();

        let func = lua
            .create_function(|_, (mode, frac): (String, f32)| {
                if !(0f32 <= frac && frac <= 1f32) {
                    return Err(mlua::Error::RuntimeError(format!(
                        "frac `{}` must be a value between 0.0 and 1.0",
                        frac
                    )));
                }
                let numerator: u32 = (frac * 256f32).round() as u32;
                blend_code(mode.as_bytes(), numerator)
                    .map_err(|_| mlua::Error::RuntimeError(format!("unknown mode `{}`", mode)))
            })
            .unwrap();
        globals.set("blend", func).unwrap();
    }
    lua
}

#[test]
fn test_rgb() {
    let lua = new();

    let result: LuaRgb = lua.load("rgb(255, 255, 255)").eval().unwrap();
    let expected = LuaRgb(255, 255, 255);
    assert_eq!(result, expected);

    let result: LuaRgb = lua.load("rgb(1, 2, 3)").eval().unwrap();
    let expected = LuaRgb(1, 2, 3);
    assert_eq!(result, expected);

    let result: LuaRgba = lua.load("rgba(255, 255, 255, 255)").eval().unwrap();
    let expected = LuaRgba(255, 255, 255, 255);
    assert_eq!(result, expected);

    let result: LuaRgba = lua.load("rgba(1, 2, 3, 4)").eval().unwrap();
    let expected = LuaRgba(1, 2, 3, 4);
    assert_eq!(result, expected);
}

#[test]
fn test_rgb_reuse() {
    let lua = new();

    lua.load("foo = rgb(11, 22, 33)").exec().unwrap();

    let _: LuaRgb = lua.load("foo").eval().unwrap();

    // take the color again; this fails if the userdata was destructed
    let _: LuaRgb = lua.load("foo").eval().unwrap();
}

#[test]
fn test_arr() {
    let lua = new();

    let result: String = lua.load("rgb(1, 2, 3):arr()").eval().unwrap();
    let expected = "1 2 3";
    assert_eq!(result, expected);

    let result: String = lua.load("rgba(1, 2, 3, 4):arr()").eval().unwrap();
    let expected = "1 2 3 4";
    assert_eq!(result, expected);
}

#[test]
fn test_color() {
    let lua = new();

    let result: LuaRgb = lua.load("color(0xffffff)").eval().unwrap();
    let expected = LuaRgb(255, 255, 255);
    assert_eq!(result, expected);

    let result: LuaRgba = lua.load("color(0xffffff, 4)").eval().unwrap();
    let expected = LuaRgba(0, 255, 255, 255);
    assert_eq!(result, expected);

    let result: LuaRgba = lua.load("color(0x11223344)").eval().unwrap();
    let expected = LuaRgba(0x11, 0x22, 0x33, 0x44);
    assert_eq!(result, expected);
}

#[test]
fn test_blend() {
    let lua = new();

    let result: i32 = lua.load("blend('hsv', 0.12)").eval().unwrap();
    let expected = 0b100001111111111110;
    assert_eq!(result, expected);

    let result: i32 = lua.load("blend('normal', 0)").eval().unwrap();
    let expected = 0b100000000000000000;
    assert_eq!(result, expected);

    let result: i32 = lua.load("blend('normal', 1)").eval().unwrap();
    let expected = 0b110000000000000000;
    assert_eq!(result, expected);
}

#[test]
fn color_arithmetic_through_lua() {
    let lua = new();

    let result: LuaRgb = lua.load("rgb(1, 2, 3) + rgb(10, 20, 30)").eval().unwrap();
    assert_eq!(result, LuaRgb(11, 22, 33));

    let result: mlua::Result<LuaRgb> = lua.load("rgb(200, 0, 0) + rgb(100, 0, 0)").eval();
    assert!(result.is_err());

    // negative() exists on three channels only
    let result: i64 = lua.load("rgb(1, 2, 3):negative()").eval().unwrap();
    assert_eq!(result, RGB(1, 2, 3).value_rev() as i64 - 0x1000000);
    let result: mlua::Result<i64> = lua.load("rgba(1, 2, 3, 4):negative()").eval();
    assert!(result.is_err());
}
