//! The renderer: a description of what to draw, its validation, and the
//! pixel driver that fills a canvas.

use crate::camera::{cast_ray, Angle, Camera};
use crate::canvas::{grid, is_image_bytes, lemma_image_bytes_unique, Canvas};
use crate::fixed::Fixed;
use crate::march::{black_spec, march, march_spec, Bounds};
use crate::scene::Sphere;
use crate::vec3::Vec3;
use vstd::prelude::*;

verus! {

/// Everything that determines a rendering.
#[derive(Debug)]
pub struct RenderConfig {
    /// The number of pixel columns.
    pub width: u32,
    /// The number of pixel rows.
    pub height: u32,
    /// Where the eye is.
    pub camera_origin: Vec3,
    /// The turn of the camera about the vertical axis.
    pub yaw: Angle,
    /// The tilt of the camera.
    pub pitch: Angle,
    /// The scene.
    pub spheres: Vec<Sphere>,
    /// The direction, of length one, along which shadow rays leave a surface.
    pub sun_direction: Vec3,
    /// The distance along a ray at which a march starts.
    pub march_near: Fixed,
    /// The distance along a ray at which a march gives up.
    pub march_far: Fixed,
    /// The distance below which a point counts as lying on a surface.
    pub epsilon: Fixed,
}

/// Why a description cannot be rendered.
#[derive(Clone, Copy, Debug, PartialEq, Eq, Structural)]
pub enum ConfigError {
    /// The scene holds no sphere.
    EmptyScene,
    /// A sphere has a radius that is not positive.
    NonPositiveRadius,
    /// The length of the sun direction is not one.
    SunNotUnit,
    /// The surface threshold is not positive.
    NonPositiveEpsilon,
    /// The image has more bytes than memory can address.
    ImageTooLarge,
}

impl ConfigError {
    /// The sentence that says what is wrong.
    pub open spec fn message_spec(self) -> Seq<char> {
        match self {
            ConfigError::EmptyScene => "the scene holds no sphere"@,
            ConfigError::NonPositiveRadius => "a sphere has a radius that is not positive"@,
            ConfigError::SunNotUnit => "the sun direction is not of length one"@,
            ConfigError::NonPositiveEpsilon => "the surface threshold is not positive"@,
            ConfigError::ImageTooLarge => "the image is too large to hold in memory"@,
        }
    }

    /// A sentence that says what is wrong.
    pub fn message(&self) -> (text: &'static str)
        ensures
            text@ == self.message_spec(),
    {
        match self {
            ConfigError::EmptyScene => "the scene holds no sphere",
            ConfigError::NonPositiveRadius => "a sphere has a radius that is not positive",
            ConfigError::SunNotUnit => "the sun direction is not of length one",
            ConfigError::NonPositiveEpsilon => "the surface threshold is not positive",
            ConfigError::ImageTooLarge => "the image is too large to hold in memory",
        }
    }
}

/// Every sphere of the scene has a positive radius.
pub open spec fn all_spheres_wf(scene: Seq<Sphere>) -> bool {
    forall|i: int| 0 <= i < scene.len() ==> (#[trigger] scene[i]).wf()
}

impl RenderConfig {
    /// The camera of the description.
    pub open spec fn camera_spec(&self) -> Camera {
        Camera::new_spec(self.camera_origin, self.yaw, self.pitch)
    }

    /// The march bounds of the description.
    pub open spec fn bounds_spec(&self) -> Bounds {
        Bounds { start: self.march_near, stop: self.march_far, epsilon: self.epsilon }
    }

    /// The first thing wrong with the description, if anything is: the checks
    /// are made in the order in which the errors are declared.
    pub open spec fn first_error_spec(&self) -> Option<ConfigError> {
        if self.spheres@.len() == 0 {
            Some(ConfigError::EmptyScene)
        } else if !all_spheres_wf(self.spheres@) {
            Some(ConfigError::NonPositiveRadius)
        } else if !self.sun_direction.is_unit_spec() {
            Some(ConfigError::SunNotUnit)
        } else if self.epsilon.raw <= 0 {
            Some(ConfigError::NonPositiveEpsilon)
        } else if !Canvas::fits(self.width, self.height) {
            Some(ConfigError::ImageTooLarge)
        } else {
            None
        }
    }

    /// The colour of the pixel in column `px` and row `py`: the colour seen
    /// along the camera ray through the screen point
    /// `(px / width, py / height)`, and black where there is no such ray.
    pub open spec fn pixel_spec(&self, px: u32, py: u32) -> Seq<u8>
        recommends
            px < self.width,
            py < self.height,
    {
        shade_spec(
            Fixed::from_ratio_spec(px, self.width),
            Fixed::from_ratio_spec(py, self.height),
            self.camera_spec(),
            self.spheres@,
            self.sun_direction,
            self.bounds_spec(),
        )
    }

    /// The image that the description stands for.
    pub open spec fn image_spec(&self) -> Map<(int, int), Seq<u8>> {
        Map::new(
            |p: (int, int)| grid(self.width as int, self.height as int).contains(p),
            |p: (int, int)| self.pixel_spec(p.0 as u32, p.1 as u32),
        )
    }

    /// Checks the description: the scene is not empty, every radius is
    /// positive, the sun direction has length one, the threshold is positive
    /// and the image fits in memory.
    pub fn validate(&self) -> (outcome: Result<(), ConfigError>)
        ensures
            match outcome {
                Ok(_) => self.first_error_spec() is None,
                Err(e) => self.first_error_spec() == Some(e),
            },
    {
        if self.spheres.len() == 0 {
            return Err(ConfigError::EmptyScene);
        }
        let mut i: usize = 0;
        while i < self.spheres.len()
            invariant
                i <= self.spheres.len(),
                forall|j: int| 0 <= j < i ==> (#[trigger] self.spheres@[j]).wf(),
            decreases self.spheres.len() - i,
        {
            if !self.spheres[i].is_valid() {
                return Err(ConfigError::NonPositiveRadius);
            }
            i += 1;
        }
        if !self.sun_direction.is_unit() {
            return Err(ConfigError::SunNotUnit);
        }
        if self.epsilon.raw <= 0 {
            return Err(ConfigError::NonPositiveEpsilon);
        }
        assert(self.width * self.height <= 0xffff_ffff * 0xffff_ffff) by (nonlinear_arith)
            requires
                0 <= self.width <= 0xffff_ffff,
                0 <= self.height <= 0xffff_ffff,
        ;
        let pixels: u64 = self.width as u64 * self.height as u64;
        if 3 * (pixels as u128) > isize::MAX as u128 {
            return Err(ConfigError::ImageTooLarge);
        }
        Ok(())
    }
}

/// The 8-bit colour seen through the screen point `(x, y)`.
pub open spec fn shade_spec(
    x: Fixed,
    y: Fixed,
    camera: Camera,
    scene: Seq<Sphere>,
    sun: Vec3,
    bounds: Bounds,
) -> Seq<u8> {
    match camera.cast_ray_spec(x, y) {
        Some(ray) => march_spec(scene, ray, sun, bounds).u8_rgb_spec(),
        None => black_spec().u8_rgb_spec(),
    }
}

/// Sets `pixel` to the colour seen through the screen point `(x, y)`, both
/// coordinates running from 0 to 1 across the screen: the colour that the
/// march finds along the camera ray through that point, as 8-bit levels.
pub fn update_color(
    x: Fixed,
    y: Fixed,
    pixel: &mut [u8; 3],
    camera: &Camera,
    scene: &[Sphere],
    sun: Vec3,
    bounds: &Bounds,
)
    requires
        bounds.wf(),
    ensures
        final(pixel)@ == shade_spec(x, y, *camera, scene@, sun, *bounds),
{
    let color = match cast_ray(camera, x, y) {
        Some(ray) => march(bounds, ray, scene, sun),
        None => Vec3::new(Fixed::zero(), Fixed::zero(), Fixed::zero()),
    };
    *pixel = color.u8_rgb();
}

/// Renders the description: checks it, then fills a canvas of its size
/// pixel by pixel.
pub fn render(config: &RenderConfig) -> (outcome: Result<Canvas, ConfigError>)
    ensures
        match outcome {
            Ok(canvas) => {
                &&& config.first_error_spec() is None
                &&& canvas.wf()
                &&& canvas.width_spec() == config.width
                &&& canvas.height_spec() == config.height
                &&& canvas@ == config.image_spec()
            },
            Err(e) => config.first_error_spec() == Some(e),
        },
{
    match config.validate() {
        Err(e) => {
            return Err(e);
        },
        Ok(_) => {},
    }
    let camera = Camera::new(config.camera_origin, config.yaw, config.pitch);
    let bounds = Bounds {
        start: config.march_near,
        stop: config.march_far,
        epsilon: config.epsilon,
    };
    let mut canvas = match Canvas::new(config.width, config.height) {
        Some(c) => c,
        None => {
            return Err(ConfigError::ImageTooLarge);
        },
    };
    let mut py: u32 = 0;
    while py < config.height
        invariant
            py <= config.height,
            bounds.wf(),
            bounds == config.bounds_spec(),
            camera == config.camera_spec(),
            canvas.wf(),
            canvas.width_spec() == config.width,
            canvas.height_spec() == config.height,
            forall|i: int, j: int|
                0 <= i < config.width && 0 <= j < py ==> #[trigger] canvas@[(i, j)] == config.pixel_spec(
                    i as u32,
                    j as u32,
                ),
        decreases config.height - py,
    {
        let y = Fixed::from_ratio(py, config.height);
        let mut px: u32 = 0;
        while px < config.width
            invariant
                py < config.height,
                px <= config.width,
                y == Fixed::from_ratio_spec(py, config.height),
                bounds.wf(),
                bounds == config.bounds_spec(),
                camera == config.camera_spec(),
                canvas.wf(),
                canvas.width_spec() == config.width,
                canvas.height_spec() == config.height,
                forall|i: int, j: int|
                    0 <= i < config.width && 0 <= j <= py && (j < py || i < px)
                        ==> #[trigger] canvas@[(i, j)] == config.pixel_spec(i as u32, j as u32),
            decreases config.width - px,
        {
            let x = Fixed::from_ratio(px, config.width);
            let mut pixel: [u8; 3] = [0, 0, 0];
            update_color(
                x,
                y,
                &mut pixel,
                &camera,
                config.spheres.as_slice(),
                config.sun_direction,
                &bounds,
            );
            canvas.put(px, py, pixel);
            px += 1;
        }
        py += 1;
    }
    assert(canvas@ =~= config.image_spec());
    Ok(canvas)
}

/// Rendering is repeatable: two canvases that each hold the image of one
/// description hold the same pixels, and written out they give the same
/// bytes.
pub proof fn lemma_render_deterministic(
    config: RenderConfig,
    one: Canvas,
    other: Canvas,
    one_bytes: Seq<u8>,
    other_bytes: Seq<u8>,
)
    requires
        one@ == config.image_spec(),
        other@ == config.image_spec(),
        is_image_bytes(one_bytes, one@, config.width as int, config.height as int),
        is_image_bytes(other_bytes, other@, config.width as int, config.height as int),
    ensures
        one@ == other@,
        one_bytes == other_bytes,
{
    lemma_image_bytes_unique(
        one_bytes,
        other_bytes,
        config.image_spec(),
        config.width as int,
        config.height as int,
    );
}

} // verus!
